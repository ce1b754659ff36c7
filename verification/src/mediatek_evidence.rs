//! Validation of untrusted read-only MTK/META evidence and its correlation with the static
//! scatter claims.
use vstd::prelude::*;
use crate::mediatek::{
    C05Error, MediatekEvidence, MediatekEvidenceCorrelation, MediatekEvidenceLevel, MediatekEvidenceObservation,
    MediatekLimits, MediatekMode, MediatekPartition, PartitionView, opt_view, partition_views,
};
use crate::mediatek_bundle::{check_limitations, check_text, scatter_limitations_ok};
use crate::mediatek_scatter::{same_ignoring_case, scatter_string_ok};
use crate::partition_map::{copy_strings, push_string, string_views};
use crate::text::owned;
use crate::text_ops::{chars_of, contains_text, lower, lower_char};

verus! {

/// Abstract value of validated evidence.
pub ghost struct EvidenceView {
    /// Provider alias.
    pub alias: Seq<char>,
    /// Observed mode.
    pub mode: MediatekMode,
    /// USB vendor identifier.
    pub usb_vid: Option<u16>,
    /// USB product identifier.
    pub usb_pid: Option<u16>,
    /// Platform claim.
    pub platform: Option<Seq<char>>,
    /// Storage claim.
    pub storage: Option<Seq<char>>,
    /// Partition names.
    pub names: Seq<Seq<char>>,
    /// Service-session flag.
    pub service: bool,
    /// Layout-inventory flag.
    pub layout: bool,
    /// Evidence level.
    pub level: MediatekEvidenceLevel,
    /// Completeness claim.
    pub complete: bool,
    /// Limitations.
    pub limitations: Seq<Seq<char>>,
}

impl View for MediatekEvidence {
    type V = EvidenceView;

    open spec fn view(&self) -> EvidenceView {
        EvidenceView {
            alias: self.provider_alias@,
            mode: self.mode,
            usb_vid: self.usb_vid,
            usb_pid: self.usb_pid,
            platform: opt_view(self.platform),
            storage: opt_view(self.storage),
            names: string_views(self.partition_names@),
            service: self.service_session_established,
            layout: self.layout_inventoried,
            level: self.level,
            complete: self.complete_claim,
            limitations: string_views(self.limitations@),
        }
    }
}

/// An optional bounded string.
pub open spec fn optional_ok(o: Option<Seq<char>>, limits: MediatekLimits) -> bool {
    match o {
        Some(s) => scatter_string_ok(s, limits),
        None => true,
    }
}

/// The first failure among the first `k` evidence partition names: an unbounded name, or a
/// repeat of an earlier one.
pub open spec fn names_fault(names: Seq<Seq<char>>, k: int, limits: MediatekLimits) -> Option<C05Error>
    decreases k,
{
    if k <= 0 {
        None
    } else {
        match names_fault(names, k - 1, limits) {
            Some(e) => Some(e),
            None => if !scatter_string_ok(names[k - 1], limits) {
                Some(C05Error::InvalidString)
            } else if names.take(k - 1).contains(names[k - 1]) {
                Some(C05Error::InvalidEvidenceObservation)
            } else {
                None
            },
        }
    }
}

/// The failure of evidence validation, if any: bounded strings; a bounded name count; USB
/// identifiers both present or both absent; a service session only with transport and a known
/// mode; a layout only within a session and with names; bounded, distinct names.
pub open spec fn evidence_fault(obs: MediatekEvidenceObservation, alias: Seq<char>, limits: MediatekLimits) -> Option<
    C05Error,
> {
    let names = string_views(obs.partition_names@);
    let transport = obs.usb_vid is Some && obs.usb_pid is Some;
    if !scatter_string_ok(alias, limits) || !optional_ok(opt_view(obs.platform), limits) || !optional_ok(
        opt_view(obs.storage),
        limits,
    ) || !scatter_limitations_ok(string_views(obs.limitations@), limits) {
        Some(C05Error::InvalidString)
    } else if names.len() > limits.max_evidence_partitions {
        Some(C05Error::InvalidEvidenceObservation)
    } else if (obs.usb_vid is Some) != (obs.usb_pid is Some) {
        Some(C05Error::InvalidEvidenceObservation)
    } else if obs.service_session_established && (!transport || obs.mode == MediatekMode::Unknown) {
        Some(C05Error::InvalidEvidenceObservation)
    } else if obs.layout_inventoried && !obs.service_session_established {
        Some(C05Error::InvalidEvidenceObservation)
    } else if obs.layout_inventoried && names.len() == 0 {
        Some(C05Error::InvalidEvidenceObservation)
    } else {
        names_fault(names, names.len() as int, limits)
    }
}

/// The strongest evidence level an observation earns.
pub open spec fn evidence_level(obs: MediatekEvidenceObservation) -> MediatekEvidenceLevel {
    if obs.layout_inventoried {
        MediatekEvidenceLevel::LayoutEvidence
    } else if obs.service_session_established {
        MediatekEvidenceLevel::ServiceSessionEvidence
    } else if obs.mode != MediatekMode::Unknown {
        MediatekEvidenceLevel::ModePresence
    } else if obs.usb_vid is Some && obs.usb_pid is Some {
        MediatekEvidenceLevel::TransportPresence
    } else {
        MediatekEvidenceLevel::Unestablished
    }
}

/// The validated projection of an observation from a provider named `alias`.
pub open spec fn validated_evidence(obs: MediatekEvidenceObservation, alias: Seq<char>) -> EvidenceView {
    EvidenceView {
        alias,
        mode: obs.mode,
        usb_vid: obs.usb_vid,
        usb_pid: obs.usb_pid,
        platform: opt_view(obs.platform),
        storage: opt_view(obs.storage),
        names: string_views(obs.partition_names@),
        service: obs.service_session_established,
        layout: obs.layout_inventoried,
        level: evidence_level(obs),
        complete: obs.complete_claim,
        limitations: string_views(obs.limitations@),
    }
}

fn check_optional(o: &Option<String>, limits: MediatekLimits) -> (r: bool)
    ensures
        r == optional_ok(opt_view(*o), limits),
{
    match o {
        Some(s) => check_text(s.as_str(), limits).is_ok(),
        None => true,
    }
}

proof fn lemma_names_fault_persists(names: Seq<Seq<char>>, i: int, k: int, limits: MediatekLimits)
    requires
        0 <= i < k,
        names_fault(names, i, limits) is None,
        names_fault(names, i + 1, limits) is Some,
    ensures
        names_fault(names, k, limits) == names_fault(names, i + 1, limits),
    decreases k,
{
    if k > i + 1 {
        lemma_names_fault_persists(names, i, k - 1, limits);
    }
}

/// Validate an untrusted evidence observation from a provider named `provider_id`.
pub fn validate_evidence_observation(
    obs: MediatekEvidenceObservation,
    provider_id: &str,
    limits: MediatekLimits,
) -> (r: Result<MediatekEvidence, C05Error>)
    ensures
        match evidence_fault(obs, provider_id@, limits) {
            Some(e) => r == Err::<MediatekEvidence, C05Error>(e),
            None => r matches Ok(ev) && ev@ == validated_evidence(obs, provider_id@),
        },
{
    let ghost o = obs;
    if check_text(provider_id, limits).is_err() || !check_optional(&obs.platform, limits) || !check_optional(
        &obs.storage,
        limits,
    ) || check_limitations(&obs.limitations, limits).is_err() {
        return Err(C05Error::InvalidString);
    }
    if obs.partition_names.len() > limits.max_evidence_partitions {
        return Err(C05Error::InvalidEvidenceObservation);
    }
    if obs.usb_vid.is_some() != obs.usb_pid.is_some() {
        return Err(C05Error::InvalidEvidenceObservation);
    }
    let transport = obs.usb_vid.is_some() && obs.usb_pid.is_some();
    let unknown = match obs.mode {
        MediatekMode::Unknown => true,
        _ => false,
    };
    if obs.service_session_established && (!transport || unknown) {
        return Err(C05Error::InvalidEvidenceObservation);
    }
    if obs.layout_inventoried && !obs.service_session_established {
        return Err(C05Error::InvalidEvidenceObservation);
    }
    if obs.layout_inventoried && obs.partition_names.len() == 0 {
        return Err(C05Error::InvalidEvidenceObservation);
    }
    let ghost names = string_views(obs.partition_names@);
    let n = obs.partition_names.len();
    assert(evidence_fault(obs, provider_id@, limits) == names_fault(names, n as int, limits));
    let mut i: usize = 0;
    while i < n
        invariant
            i <= n == obs.partition_names@.len(),
            names == string_views(obs.partition_names@),
            evidence_fault(obs, provider_id@, limits) == names_fault(names, n as int, limits),
            names_fault(names, i as int, limits) is None,
        decreases n - i,
    {
        assert(names[i as int] == obs.partition_names@[i as int]@);
        if check_text(obs.partition_names[i].as_str(), limits).is_err() {
            proof {
                lemma_names_fault_persists(names, i as int, n as int, limits);
            }
            return Err(C05Error::InvalidString);
        }
        let mut j: usize = 0;
        while j < i
            invariant
                j <= i < n == obs.partition_names@.len(),
                names == string_views(obs.partition_names@),
                evidence_fault(obs, provider_id@, limits) == names_fault(names, n as int, limits),
                names_fault(names, i as int, limits) is None,
                scatter_string_ok(names[i as int], limits),
                forall|q: int| 0 <= q < j ==> names[q] != names[i as int],
            decreases i - j,
        {
            assert(names[j as int] == obs.partition_names@[j as int]@);
            if obs.partition_names[j] == obs.partition_names[i] {
                assert(names.take(i as int)[j as int] == names[i as int]);
                proof {
                    lemma_names_fault_persists(names, i as int, n as int, limits);
                }
                return Err(C05Error::InvalidEvidenceObservation);
            }
            j = j + 1;
        }
        assert(!names.take(i as int).contains(names[i as int])) by {
            if names.take(i as int).contains(names[i as int]) {
                let w = choose|w: int| 0 <= w < i && names.take(i as int)[w] == names[i as int];
                assert(names[w] == names[i as int]);
            }
        }
        i = i + 1;
    }
    let level = if obs.layout_inventoried {
        MediatekEvidenceLevel::LayoutEvidence
    } else if obs.service_session_established {
        MediatekEvidenceLevel::ServiceSessionEvidence
    } else if !unknown {
        MediatekEvidenceLevel::ModePresence
    } else if transport {
        MediatekEvidenceLevel::TransportPresence
    } else {
        MediatekEvidenceLevel::Unestablished
    };
    Ok(
        MediatekEvidence {
            provider_alias: owned(provider_id),
            mode: obs.mode,
            usb_vid: obs.usb_vid,
            usb_pid: obs.usb_pid,
            platform: obs.platform,
            storage: obs.storage,
            partition_names: obs.partition_names,
            service_session_established: obs.service_session_established,
            layout_inventoried: obs.layout_inventoried,
            level,
            complete_claim: obs.complete_claim,
            limitations: obs.limitations,
        },
    )
}

/// The names of partitions.
pub open spec fn partition_names_of(ps: Seq<PartitionView>) -> Seq<Seq<char>> {
    ps.map_values(|p: PartitionView| p.name)
}

/// Two name lists hold the same set of names.
pub open spec fn same_name_set(a: Seq<Seq<char>>, b: Seq<Seq<char>>) -> bool {
    (forall|i: int| 0 <= i < a.len() ==> b.contains(#[trigger] a[i])) && (forall|i: int|
        0 <= i < b.len() ==> a.contains(#[trigger] b[i]))
}

/// Comparison of scatter claims with evidence claims: platform and storage ignoring ASCII case
/// when the evidence states them, and partition-name sets when a layout was inventoried.
pub open spec fn correlation_spec(
    platform: Seq<char>,
    storage: Seq<char>,
    ps: Seq<PartitionView>,
    ev: EvidenceView,
) -> MediatekEvidenceCorrelation {
    MediatekEvidenceCorrelation {
        platform_matches: match ev.platform {
            Some(p) => Some(same_ignoring_case(p, platform)),
            None => None,
        },
        storage_matches: match ev.storage {
            Some(s) => Some(same_ignoring_case(s, storage)),
            None => None,
        },
        partition_names_match: if ev.layout {
            Some(same_name_set(partition_names_of(ps), ev.names))
        } else {
            None
        },
    }
}

/// Whether two texts are equal once ASCII letters are folded to lower case.
pub fn texts_equal_ignoring_case(a: &String, b: &String) -> (r: bool)
    ensures
        r == same_ignoring_case(a@, b@),
{
    let v = chars_of(a.as_str());
    let w = chars_of(b.as_str());
    if v.len() != w.len() {
        assert(crate::text_ops::ascii_lower(v@).len() != crate::text_ops::ascii_lower(w@).len());
        return false;
    }
    let mut k: usize = 0;
    while k < v.len()
        invariant
            k <= v@.len() == w@.len(),
            v@ == a@,
            w@ == b@,
            forall|j: int| 0 <= j < k ==> lower_char(v@[j]) == lower_char(w@[j]),
        decreases v.len() - k,
    {
        if lower(v[k]) != lower(w[k]) {
            assert(crate::text_ops::ascii_lower(v@)[k as int] != crate::text_ops::ascii_lower(w@)[k as int]);
            return false;
        }
        k = k + 1;
    }
    assert(crate::text_ops::ascii_lower(v@) =~= crate::text_ops::ascii_lower(w@));
    true
}

fn names_of(partitions: &Vec<MediatekPartition>) -> (r: Vec<String>)
    ensures
        string_views(r@) == partition_names_of(partition_views(partitions@)),
{
    let ghost pv = partition_views(partitions@);
    let mut out: Vec<String> = Vec::new();
    let mut i: usize = 0;
    while i < partitions.len()
        invariant
            i <= partitions@.len(),
            pv == partition_views(partitions@),
            string_views(out@) == partition_names_of(pv.take(i as int)),
        decreases partitions.len() - i,
    {
        assert(pv[i as int] == partitions@[i as int]@);
        push_string(&mut out, partitions[i].partition_name.clone());
        assert(partition_names_of(pv.take(i as int + 1)) =~= partition_names_of(pv.take(i as int)).push(
            pv[i as int].name,
        ));
        i = i + 1;
    }
    assert(pv.take(pv.len() as int) =~= pv);
    out
}

fn all_contained(a: &Vec<String>, b: &Vec<String>) -> (r: bool)
    ensures
        r == (forall|i: int| 0 <= i < a@.len() ==> string_views(b@).contains(#[trigger] string_views(a@)[i])),
{
    let ghost av = string_views(a@);
    let mut i: usize = 0;
    while i < a.len()
        invariant
            i <= a@.len(),
            av == string_views(a@),
            forall|j: int| 0 <= j < i ==> string_views(b@).contains(#[trigger] av[j]),
        decreases a.len() - i,
    {
        assert(av[i as int] == a@[i as int]@);
        if !contains_text(b, &a[i]) {
            return false;
        }
        i = i + 1;
    }
    true
}

/// Correlate static scatter claims with validated evidence.
pub fn correlate_evidence(
    platform: &String,
    storage: &String,
    partitions: &Vec<MediatekPartition>,
    evidence: &MediatekEvidence,
) -> (r: MediatekEvidenceCorrelation)
    ensures
        r == correlation_spec(platform@, storage@, partition_views(partitions@), evidence@),
{
    let platform_matches = match &evidence.platform {
        Some(p) => Some(texts_equal_ignoring_case(p, platform)),
        None => None,
    };
    let storage_matches = match &evidence.storage {
        Some(s) => Some(texts_equal_ignoring_case(s, storage)),
        None => None,
    };
    let partition_names_match = if evidence.layout_inventoried {
        let names = names_of(partitions);
        let a = all_contained(&names, &evidence.partition_names);
        let b = all_contained(&evidence.partition_names, &names);
        Some(a && b)
    } else {
        None
    };
    MediatekEvidenceCorrelation { platform_matches, storage_matches, partition_names_match }
}


/// Note recorded when supplied evidence contradicts the scatter claims.
pub open spec fn contradiction_note() -> Seq<char> {
    "supplied lawful MTK/META evidence contradicts scatter platform/storage/layout claims"@
}

/// Note recorded when the evidence provider did not claim completeness.
pub open spec fn incomplete_evidence_note() -> Seq<char> {
    "evidence Provider did not claim complete C05-supported read-only evidence"@
}

/// The phrase whose presence in any limitation marks the evidence as partial.
pub open spec fn incomplete_evidence_phrase() -> Seq<char> {
    "did not claim complete C05-supported read-only evidence"@
}

/// Whether `sub` occurs in `s`.
pub open spec fn has_sub(s: Seq<char>, sub: Seq<char>) -> bool {
    exists|i: int| 0 <= i && i + sub.len() <= s.len() && #[trigger] s.subrange(i, i + sub.len()) == sub
}

/// Some comparison came out negative.
pub open spec fn correlation_mismatch(c: MediatekEvidenceCorrelation) -> bool {
    c.platform_matches == Some(false) || c.storage_matches == Some(false) || c.partition_names_match == Some(false)
}

/// Evidence state for a report.
pub struct EvidenceResolution {
    /// Validated evidence.
    pub evidence: Option<MediatekEvidence>,
    /// Correlation with the scatter claims.
    pub correlation: Option<MediatekEvidenceCorrelation>,
    /// Complete layout evidence agrees with every scatter claim.
    pub correlated: bool,
    /// Some supported evidence semantics remain unestablished or contradicted.
    pub partial: bool,
    /// Explicit limitations.
    pub limitations: Vec<String>,
}

/// Abstract value of an evidence resolution.
pub ghost struct EvidenceResolutionView {
    /// Validated evidence.
    pub evidence: Option<EvidenceView>,
    /// Correlation.
    pub correlation: Option<MediatekEvidenceCorrelation>,
    /// Correlated flag.
    pub correlated: bool,
    /// Partial flag.
    pub partial: bool,
    /// Limitations.
    pub limitations: Seq<Seq<char>>,
}

/// View of optional evidence.
pub open spec fn evidence_opt_view(o: Option<MediatekEvidence>) -> Option<EvidenceView> {
    match o {
        Some(e) => Some(e@),
        None => None,
    }
}

impl View for EvidenceResolution {
    type V = EvidenceResolutionView;

    open spec fn view(&self) -> EvidenceResolutionView {
        EvidenceResolutionView {
            evidence: evidence_opt_view(self.evidence),
            correlation: self.correlation,
            correlated: self.correlated,
            partial: self.partial,
            limitations: string_views(self.limitations@),
        }
    }
}

/// Evidence state when no evidence provider was supplied.
pub open spec fn no_evidence() -> EvidenceResolutionView {
    EvidenceResolutionView {
        evidence: None,
        correlation: None,
        correlated: false,
        partial: false,
        limitations: Seq::empty(),
    }
}

/// Some limitation holds the incomplete-evidence phrase.
pub open spec fn any_incomplete(lims: Seq<Seq<char>>) -> bool {
    exists|k: int| 0 <= k < lims.len() && has_sub(#[trigger] lims[k], incomplete_evidence_phrase())
}

/// Evidence state from a validated observation.
pub open spec fn observed_evidence(
    platform: Seq<char>,
    storage: Seq<char>,
    ps: Seq<PartitionView>,
    v0: EvidenceView,
) -> EvidenceResolutionView {
    let corr = correlation_spec(platform, storage, ps, v0);
    let mismatch = correlation_mismatch(corr);
    let v = if !v0.complete {
        EvidenceView { limitations: v0.limitations.push(incomplete_evidence_note()), ..v0 }
    } else {
        v0
    };
    let lims = (if mismatch {
        seq![contradiction_note()]
    } else {
        Seq::empty()
    }) + v.limitations;
    EvidenceResolutionView {
        evidence: Some(v),
        correlation: Some(corr),
        correlated: v.complete && v.level == MediatekEvidenceLevel::LayoutEvidence && corr.platform_matches == Some(
            true,
        ) && corr.storage_matches == Some(true) && corr.partition_names_match == Some(true) && !mismatch,
        partial: mismatch || any_incomplete(lims),
        limitations: lims,
    }
}

/// The evidence state from a provider named `alias` whose answer was `answer`.
pub open spec fn evidence_answer_spec(
    platform: Seq<char>,
    storage: Seq<char>,
    ps: Seq<PartitionView>,
    alias: Seq<char>,
    answer: Result<MediatekEvidenceObservation, String>,
    limits: MediatekLimits,
) -> Result<EvidenceResolutionView, C05Error> {
    match answer {
        Err(msg) => Err(C05Error::EvidenceProvider(msg)),
        Ok(obs) => match evidence_fault(obs, alias, limits) {
            Some(e) => Err(e),
            None => Ok(observed_evidence(platform, storage, ps, validated_evidence(obs, alias))),
        },
    }
}

/// Whether `sub` occurs in `s`.
pub fn text_contains(s: &String, sub: &str) -> (r: bool)
    ensures
        r == has_sub(s@, sub@),
{
    let x = chars_of(s.as_str());
    let y = chars_of(sub);
    let n = x.len();
    let m = y.len();
    if m > n {
        return false;
    }
    let mut i: usize = 0;
    while i <= n - m
        invariant
            m <= n == x@.len(),
            m == y@.len(),
            x@ == s@,
            y@ == sub@,
            forall|q: int| 0 <= q < i ==> #[trigger] x@.subrange(q, q + m) != y@,
        decreases n - m + 1 - i,
    {
        let mut k: usize = 0;
        while k < m && x[i + k] == y[k]
            invariant
                i <= n - m,
                m <= n == x@.len(),
                m == y@.len(),
                k <= m,
                forall|t: int| 0 <= t < k ==> x@[i + t] == y@[t],
            decreases m - k,
        {
            k = k + 1;
        }
        if k == m {
            assert(x@.subrange(i as int, i + m) =~= y@);
            return true;
        }
        assert(x@.subrange(i as int, i + m)[k as int] != y@[k as int]);
        i = i + 1;
    }
    assert forall|q: int| 0 <= q && q + sub@.len() <= s@.len() implies #[trigger] s@.subrange(q, q + sub@.len()) != sub@ by {
        assert(q < i);
    }
    false
}

fn any_contains(values: &Vec<String>, sub: &str) -> (r: bool)
    ensures
        r == exists|k: int| 0 <= k < values@.len() && has_sub(#[trigger] string_views(values@)[k], sub@),
{
    let ghost vv = string_views(values@);
    let mut i: usize = 0;
    while i < values.len()
        invariant
            i <= values@.len(),
            vv == string_views(values@),
            forall|k: int| 0 <= k < i ==> !has_sub(#[trigger] vv[k], sub@),
        decreases values.len() - i,
    {
        assert(vv[i as int] == values@[i as int]@);
        if text_contains(&values[i], sub) {
            return true;
        }
        i = i + 1;
    }
    false
}

/// Evidence state when no evidence provider was supplied.
pub fn absent_evidence() -> (r: EvidenceResolution)
    ensures
        r@ == no_evidence(),
{
    let r = EvidenceResolution {
        evidence: None,
        correlation: None,
        correlated: false,
        partial: false,
        limitations: Vec::new(),
    };
    assert(string_views(r.limitations@) =~= Seq::<Seq<char>>::empty());
    r
}

/// The evidence state from a provider's answer: the answer's failure, the observation's
/// validation failure, or validated evidence with its correlation, flags and limitations.
pub fn evidence_from_answer(
    platform: &String,
    storage: &String,
    partitions: &Vec<MediatekPartition>,
    alias: &str,
    answer: Result<MediatekEvidenceObservation, String>,
    limits: MediatekLimits,
) -> (r: Result<EvidenceResolution, C05Error>)
    ensures
        match evidence_answer_spec(platform@, storage@, partition_views(partitions@), alias@, answer, limits) {
            Ok(v) => r matches Ok(x) && x@ == v,
            Err(e) => r == Err::<EvidenceResolution, C05Error>(e),
        },
{
    let obs = match answer {
        Err(msg) => {
            return Err(C05Error::EvidenceProvider(msg));
        },
        Ok(o) => o,
    };
    let mut validated = match validate_evidence_observation(obs, alias, limits) {
        Ok(v) => v,
        Err(e) => {
            return Err(e);
        },
    };
    let correlation = correlate_evidence(platform, storage, partitions, &validated);
    let mismatch = correlation.platform_matches == Some(false) || correlation.storage_matches == Some(false)
        || correlation.partition_names_match == Some(false);
    let mut limitations: Vec<String> = Vec::new();
    if mismatch {
        push_string(
            &mut limitations,
            owned("supplied lawful MTK/META evidence contradicts scatter platform/storage/layout claims"),
        );
    }
    let ghost v0 = validated@;
    if !validated.complete_claim {
        push_string(
            &mut validated.limitations,
            owned("evidence Provider did not claim complete C05-supported read-only evidence"),
        );
    }
    let ghost l0 = string_views(limitations@);
    let mut k: usize = 0;
    while k < validated.limitations.len()
        invariant
            k <= validated.limitations@.len(),
            string_views(limitations@) == l0 + string_views(validated.limitations@).take(k as int),
        decreases validated.limitations.len() - k,
    {
        push_string(&mut limitations, validated.limitations[k].clone());
        assert(string_views(validated.limitations@).take(k as int + 1) =~= string_views(
            validated.limitations@,
        ).take(k as int).push(validated.limitations@[k as int]@));
        assert(l0 + string_views(validated.limitations@).take(k as int + 1) =~= (l0 + string_views(
            validated.limitations@,
        ).take(k as int)).push(validated.limitations@[k as int]@));
        k = k + 1;
    }
    assert(string_views(validated.limitations@).take(validated.limitations@.len() as int) =~= string_views(
        validated.limitations@,
    ));
    if mismatch {
        assert(l0 =~= seq![contradiction_note()]);
    } else {
        assert(l0 =~= Seq::<Seq<char>>::empty());
    }
    let is_layout = match validated.level {
        MediatekEvidenceLevel::LayoutEvidence => true,
        _ => false,
    };
    let correlated = validated.complete_claim && is_layout && correlation.platform_matches == Some(true)
        && correlation.storage_matches == Some(true) && correlation.partition_names_match == Some(true) && !mismatch;
    let partial = mismatch || any_contains(&limitations, "did not claim complete C05-supported read-only evidence");
    proof {
        let expected = observed_evidence(platform@, storage@, partition_views(partitions@), v0);
        assert(correlation == expected.correlation->0);
        assert(mismatch == correlation_mismatch(correlation));
        assert(validated@ == expected.evidence->0);
        assert(string_views(limitations@) == expected.limitations);
        assert(correlated == expected.correlated);
        assert(partial == expected.partial);
    }
    Ok(
        EvidenceResolution {
            evidence: Some(validated),
            correlation: Some(correlation),
            correlated,
            partial,
            limitations,
        },
    )
}

} // verus!
