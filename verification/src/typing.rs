//! Progressive type detection: detector evidence, agreement without silent tie-breaking, and the
//! searchable metadata projected from that evidence.
use vstd::prelude::*;
use crate::archive_model::{member_kind_token, DecompositionOutcome, MemberKind};
use crate::partition_map::{opt_view, push_string, string_views};
use crate::text::{decimal, decimal_string, numbered_message, owned};
use crate::text_map::{map_insert, TextMap};
use crate::text_ops::{
    chars_of, dedup_spec, dedup_strings, first_id_fault, id_fault_spec, join_spec, join_strings, normalize_type,
    normalize_type_spec, trim_spec, trimmed, IdFault, IdFaultView,
};

verus! {

/// Progressive inspection level.
#[derive(Debug, Clone, Copy, PartialEq, Eq, Structural)]
pub enum ProgressiveLevel {
    /// Identity and caller-declared metadata only; no detector is invoked.
    L0,
    /// Aggregate type-detector evidence.
    L1,
    /// A bounded structural inventory when a matching decomposer exists.
    L2,
    /// Bounded recursive decomposition and child discovery.
    L3,
}

/// Stable token of a level.
pub open spec fn level_token(l: ProgressiveLevel) -> Seq<char> {
    match l {
        ProgressiveLevel::L0 => "L0"@,
        ProgressiveLevel::L1 => "L1"@,
        ProgressiveLevel::L2 => "L2"@,
        ProgressiveLevel::L3 => "L3"@,
    }
}

impl ProgressiveLevel {
    /// Stable level token.
    pub fn as_str(self) -> (r: &'static str)
        ensures
            r@ == level_token(self),
    {
        match self {
            ProgressiveLevel::L0 => "L0",
            ProgressiveLevel::L1 => "L1",
            ProgressiveLevel::L2 => "L2",
            ProgressiveLevel::L3 => "L3",
        }
    }
}

/// One positive mechanical type signal.
#[derive(Debug)]
pub struct TypeSignal {
    /// Detector-observed type token, normally a media type.
    pub media_type: String,
    /// Detector confidence from 0 through 1000.
    pub confidence_milli: u16,
    /// Bounded detector detail retained as evidence, not authority.
    pub detail: String,
}

/// Abstract value of a type signal.
pub ghost struct SignalView {
    /// Type token.
    pub media_type: Seq<char>,
    /// Confidence.
    pub confidence_milli: u16,
    /// Detail.
    pub detail: Seq<char>,
}

impl View for TypeSignal {
    type V = SignalView;

    open spec fn view(&self) -> SignalView {
        SignalView { media_type: self.media_type@, confidence_milli: self.confidence_milli, detail: self.detail@ }
    }
}

/// Mechanical detector outcome, retained without collapsing disagreement or failure.
#[derive(Debug)]
pub enum DetectorOutcome {
    /// Detector emitted a positive type observation.
    Observed(TypeSignal),
    /// Detector examined the bytes but did not identify a type.
    NoMatch,
    /// Detector failed or emitted invalid evidence.
    Failed(String),
}

/// Abstract value of a detector outcome.
pub ghost enum OutcomeView {
    /// Positive observation.
    Observed(SignalView),
    /// No match.
    NoMatch,
    /// Failure text.
    Failed(Seq<char>),
}

impl View for DetectorOutcome {
    type V = OutcomeView;

    open spec fn view(&self) -> OutcomeView {
        match self {
            DetectorOutcome::Observed(s) => OutcomeView::Observed(s@),
            DetectorOutcome::NoMatch => OutcomeView::NoMatch,
            DetectorOutcome::Failed(e) => OutcomeView::Failed(e@),
        }
    }
}

/// One detector evidence record.
#[derive(Debug)]
pub struct DetectorEvidence {
    /// Stable detector identity supplied by the detector implementation.
    pub detector_id: String,
    /// Exact bounded mechanical outcome.
    pub outcome: DetectorOutcome,
}

/// Abstract value of detector evidence.
pub ghost struct EvidenceView {
    /// Detector identity.
    pub detector_id: Seq<char>,
    /// Outcome.
    pub outcome: OutcomeView,
}

impl View for DetectorEvidence {
    type V = EvidenceView;

    open spec fn view(&self) -> EvidenceView {
        EvidenceView { detector_id: self.detector_id@, outcome: self.outcome@ }
    }
}

/// Replaceable type detector; detectors provide evidence only and authorize nothing. Each
/// method's answers are described by a relation the implementation may state; by default any
/// answer is allowed.
pub trait TypeDetector {
    /// Whether `id` is an identity this detector may report.
    open spec fn id_post(&self, id: Seq<char>) -> bool {
        true
    }

    /// Whether `r` is (the abstract value of) an observation this detector may give for `bytes`.
    open spec fn detect_post(&self, bytes: Seq<u8>, r: Result<Option<SignalView>, Seq<char>>) -> bool {
        true
    }

    /// Stable detector identity that keeps independent evidence distinguishable.
    fn detector_id(&self) -> (r: &str)
        ensures
            self.id_post(r@),
    ;

    /// Inspect immutable bytes and return a bounded mechanical observation, or a failure.
    fn detect(&self, bytes: &[u8]) -> (r: Result<Option<TypeSignal>, String>)
        ensures
            self.detect_post(bytes@, answer_view(r)),
    ;
}

/// Aggregate type result; a disputed set is never collapsed to one winner.
#[derive(Debug)]
pub enum TypeAgreement {
    /// No detector emitted a valid positive type signal.
    Unknown,
    /// All positive signals agree on one normalized type token.
    Agreed(String),
    /// Positive signals disagree; all distinct normalized types, in sorted order.
    Disputed(Vec<String>),
}

/// Abstract value of an agreement.
pub ghost enum AgreementView {
    /// Unknown.
    Unknown,
    /// Agreed type.
    Agreed(Seq<char>),
    /// Disputed types.
    Disputed(Seq<Seq<char>>),
}

impl View for TypeAgreement {
    type V = AgreementView;

    open spec fn view(&self) -> AgreementView {
        match self {
            TypeAgreement::Unknown => AgreementView::Unknown,
            TypeAgreement::Agreed(s) => AgreementView::Agreed(s@),
            TypeAgreement::Disputed(v) => AgreementView::Disputed(string_views(v@)),
        }
    }
}

/// Type assessment with all detector evidence retained.
#[derive(Debug)]
pub struct TypeAssessment {
    /// Caller-declared type, when one was supplied.
    pub declared_type: Option<String>,
    /// Independent detector evidence in invocation order.
    pub detector_evidence: Vec<DetectorEvidence>,
    /// Agreement derived only from valid positive detector signals.
    pub agreement: TypeAgreement,
    /// Comparison of the declared type with the agreed type; `None` when no truthful comparison
    /// is possible.
    pub declared_matches_agreed_type: Option<bool>,
}

/// Abstract value of a type assessment.
pub ghost struct AssessmentView {
    /// Declared type.
    pub declared_type: Option<Seq<char>>,
    /// Evidence.
    pub evidence: Seq<EvidenceView>,
    /// Agreement.
    pub agreement: AgreementView,
    /// Declared/agreed comparison.
    pub declared_matches: Option<bool>,
}

/// Views of evidence records.
pub open spec fn evidence_views(s: Seq<DetectorEvidence>) -> Seq<EvidenceView> {
    s.map_values(|e: DetectorEvidence| e@)
}

impl View for TypeAssessment {
    type V = AssessmentView;

    open spec fn view(&self) -> AssessmentView {
        AssessmentView {
            declared_type: opt_view(self.declared_type),
            evidence: evidence_views(self.detector_evidence@),
            agreement: self.agreement@,
            declared_matches: self.declared_matches_agreed_type,
        }
    }
}

impl TypeAssessment {
    /// The agreed observed type, only when positive detector evidence does not conflict.
    pub fn agreed_type(&self) -> (r: Option<&str>)
        ensures
            match self.agreement@ {
                AgreementView::Agreed(t) => r matches Some(s) && s@ == t,
                _ => r is None,
            },
    {
        match &self.agreement {
            TypeAgreement::Agreed(value) => Some(value.as_str()),
            _ => None,
        }
    }
}

/// Configuration failures of progressive detection.
#[derive(Debug)]
pub enum B02Error {
    /// Two configured detectors use the same stable identity.
    DuplicateDetectorId(String),
    /// Detector identity is empty after trimming.
    EmptyDetectorId,
    /// A configured archive type token is empty after normalization.
    EmptyArchiveMediaType,
    /// Archive decomposition could not produce a truthful bounded plan.
    Archive(crate::archive_policy::DecompositionError),
}

/// Whether a detector-identity check agrees with the first identity fault.
pub open spec fn id_check_agrees(r: Result<(), B02Error>, f: Option<IdFaultView>) -> bool {
    match r {
        Ok(_) => f is None,
        Err(B02Error::EmptyDetectorId) => f == Some(IdFaultView::Empty),
        Err(B02Error::DuplicateDetectorId(s)) => f == Some(IdFaultView::Duplicate(s@)),
        Err(_) => false,
    }
}

/// The identities are ones the detectors may report, in order.
pub open spec fn detector_ids_from(detectors: Seq<&dyn TypeDetector>, ids: Seq<Seq<char>>) -> bool {
    &&& ids.len() == detectors.len()
    &&& forall|j: int| 0 <= j < ids.len() ==> detectors[j].id_post(#[trigger] ids[j])
}

/// The answers are ones the detectors may give: for each detector, in order, its identity and
/// its observation of `bytes`.
pub open spec fn detector_answers_from(
    detectors: Seq<&dyn TypeDetector>,
    bytes: Seq<u8>,
    answers: Seq<(Seq<char>, Result<Option<SignalView>, Seq<char>>)>,
) -> bool {
    &&& answers.len() == detectors.len()
    &&& forall|j: int| 0 <= j < answers.len() ==> detectors[j].id_post(#[trigger] answers[j].0) && detectors[j].detect_post(
        bytes,
        answers[j].1,
    )
}

/// Reject detector identities that are empty once trimmed, or that repeat an earlier identity.
///
/// The result is the first fault among the identities the detectors reported, in order.
pub fn validate_detector_ids(detectors: &[&dyn TypeDetector]) -> (r: Result<(), B02Error>)
    ensures
        exists|ids: Seq<Seq<char>>| detector_ids_from(detectors@, ids) && id_check_agrees(r, #[trigger] id_fault_spec(ids)),
{
    let mut ids: Vec<String> = Vec::new();
    let mut i: usize = 0;
    while i < detectors.len()
        invariant
            i <= detectors@.len(),
            ids@.len() == i,
            forall|j: int| 0 <= j < i ==> detectors@[j].id_post(#[trigger] ids@[j]@),
        decreases detectors.len() - i,
    {
        let id = detectors[i].detector_id();
        ids.push(owned(id));
        assert(ids@[i as int]@ == id@);
        i = i + 1;
    }
    let ghost v = string_views(ids@);
    assert(v.len() == detectors@.len());
    assert(detector_ids_from(detectors@, v));
    match first_id_fault(&ids) {
        None => Ok(()),
        Some(IdFault::Empty) => Err(B02Error::EmptyDetectorId),
        Some(IdFault::Duplicate(s)) => Err(B02Error::DuplicateDetectorId(s)),
    }
}

/// Normalized archive type tokens.
pub open spec fn normalized_types(values: Seq<Seq<char>>) -> Seq<Seq<char>> {
    values.map_values(|v: Seq<char>| normalize_type_spec(v))
}

/// Normalize configured archive type tokens into a set (first occurrences, in order); an empty
/// token is an error.
pub fn normalize_archive_types(values: &Vec<String>) -> (r: Result<Vec<String>, B02Error>)
    ensures
        r is Err <==> exists|i: int| 0 <= i < values@.len() && (#[trigger] normalized_types(string_views(values@))[i]).len()
            == 0,
        r matches Err(e) ==> e is EmptyArchiveMediaType,
        r matches Ok(v) ==> string_views(v@) == dedup_spec(normalized_types(string_views(values@))),
{
    let ghost n = normalized_types(string_views(values@));
    let mut out: Vec<String> = Vec::new();
    let mut i: usize = 0;
    while i < values.len()
        invariant
            i <= values@.len(),
            n == normalized_types(string_views(values@)),
            string_views(out@) == n.take(i as int),
            forall|j: int| 0 <= j < i ==> (#[trigger] n[j]).len() != 0,
        decreases values.len() - i,
    {
        let t = normalize_type(values[i].as_str());
        assert(n[i as int] == t@);
        if t.as_str().unicode_len() == 0 {
            return Err(B02Error::EmptyArchiveMediaType);
        }
        push_string(&mut out, t);
        assert(n.take(i as int + 1) =~= n.take(i as int).push(n[i as int]));
        i = i + 1;
    }
    assert(n.take(n.len() as int) =~= n);
    dedup_strings(&mut out);
    Ok(out)
}

/// The evidence a detector answer yields: identity trimmed; a signal's type normalized, and a
/// signal with an empty type or a confidence over 1000 recorded as a failure.
pub open spec fn evidence_spec(id: Seq<char>, answer: Result<Option<SignalView>, Seq<char>>) -> EvidenceView {
    EvidenceView {
        detector_id: trim_spec(id),
        outcome: match answer {
            Ok(Some(s)) => {
                let t = normalize_type_spec(s.media_type);
                if t.len() == 0 {
                    OutcomeView::Failed("detector emitted an empty type token"@)
                } else if s.confidence_milli > 1000 {
                    OutcomeView::Failed("detector confidence "@ + decimal(s.confidence_milli as nat) + " exceeds 1000"@)
                } else {
                    OutcomeView::Observed(SignalView { media_type: t, confidence_milli: s.confidence_milli, detail: s.detail })
                }
            },
            Ok(None) => OutcomeView::NoMatch,
            Err(e) => OutcomeView::Failed(e),
        },
    }
}

/// View of a detector answer.
pub open spec fn answer_view(a: Result<Option<TypeSignal>, String>) -> Result<Option<SignalView>, Seq<char>> {
    match a {
        Ok(Some(s)) => Ok(Some(s@)),
        Ok(None) => Ok(None),
        Err(e) => Err(e@),
    }
}

/// Build the evidence record of one detector from its identity and answer.
pub fn detector_evidence(id: &str, answer: Result<Option<TypeSignal>, String>) -> (e: DetectorEvidence)
    ensures
        e@ == evidence_spec(id@, answer_view(answer)),
{
    let detector_id = trimmed(id);
    let outcome = match answer {
        Ok(Some(signal)) => {
            let t = normalize_type(signal.media_type.as_str());
            if t.as_str().unicode_len() == 0 {
                DetectorOutcome::Failed(owned("detector emitted an empty type token"))
            } else if signal.confidence_milli > 1000 {
                DetectorOutcome::Failed(
                    numbered_message("detector confidence ", signal.confidence_milli as u64, " exceeds 1000"),
                )
            } else {
                DetectorOutcome::Observed(
                    TypeSignal { media_type: t, confidence_milli: signal.confidence_milli, detail: signal.detail },
                )
            }
        },
        Ok(None) => DetectorOutcome::NoMatch,
        Err(e) => DetectorOutcome::Failed(e),
    };
    DetectorEvidence { detector_id, outcome }
}

/// The distinct observed types of evidence, as a sorted key set.
pub open spec fn observed_pairs(evs: Seq<EvidenceView>) -> Seq<(Seq<char>, Seq<char>)>
    decreases evs.len(),
{
    if evs.len() == 0 {
        Seq::empty()
    } else {
        let m = observed_pairs(evs.drop_last());
        match evs.last().outcome {
            OutcomeView::Observed(s) => map_insert(m, s.media_type, Seq::empty()),
            _ => m,
        }
    }
}

/// Agreement over a sorted set of observed types.
pub open spec fn agreement_spec(pairs: Seq<(Seq<char>, Seq<char>)>) -> AgreementView {
    if pairs.len() == 0 {
        AgreementView::Unknown
    } else if pairs.len() == 1 {
        AgreementView::Agreed(pairs[0].0)
    } else {
        AgreementView::Disputed(pairs.map_values(|p: (Seq<char>, Seq<char>)| p.0))
    }
}

/// The assessment that detector answers yield for a declared type.
pub open spec fn assessment_spec(
    declared: Option<Seq<char>>,
    answers: Seq<(Seq<char>, Result<Option<SignalView>, Seq<char>>)>,
) -> AssessmentView {
    let evs = answers.map_values(|a: (Seq<char>, Result<Option<SignalView>, Seq<char>>)| evidence_spec(a.0, a.1));
    let agreement = agreement_spec(observed_pairs(evs));
    AssessmentView {
        declared_type: declared,
        evidence: evs,
        agreement,
        declared_matches: match (declared, agreement) {
            (Some(d), AgreementView::Agreed(o)) => Some(d == o),
            _ => None,
        },
    }
}

fn agreement_of(observed: &TextMap) -> (a: TypeAgreement)
    ensures
        a@ == agreement_spec(observed@),
{
    let pairs = observed.pairs();
    if pairs.len() == 0 {
        TypeAgreement::Unknown
    } else if pairs.len() == 1 {
        TypeAgreement::Agreed(pairs[0].0.clone())
    } else {
        let ghost ks = observed@.map_values(|p: (Seq<char>, Seq<char>)| p.0);
        let mut keys: Vec<String> = Vec::new();
        let mut i: usize = 0;
        while i < pairs.len()
            invariant
                i <= pairs@.len(),
                crate::text_map::pair_views(pairs@) == observed@,
                ks == observed@.map_values(|p: (Seq<char>, Seq<char>)| p.0),
                string_views(keys@) == ks.take(i as int),
            decreases pairs.len() - i,
        {
            assert(observed@[i as int] == (pairs@[i as int].0@, pairs@[i as int].1@));
            push_string(&mut keys, pairs[i].0.clone());
            assert(ks.take(i as int + 1) =~= ks.take(i as int).push(ks[i as int]));
            i = i + 1;
        }
        assert(ks.take(ks.len() as int) =~= ks);
        TypeAgreement::Disputed(keys)
    }
}

/// Assess the type of `bytes`: every detector's evidence is retained in order, and positive
/// signals either agree on one normalized type, are absent, or are disputed.
///
/// The result is `assessment_spec` of the identities and answers the detectors gave.
pub fn assess_type(bytes: &[u8], declared_type: Option<String>, detectors: &[&dyn TypeDetector]) -> (r: TypeAssessment)
    ensures
        exists|answers: Seq<(Seq<char>, Result<Option<SignalView>, Seq<char>>)>|
            detector_answers_from(detectors@, bytes@, answers) && r@ == #[trigger] assessment_spec(
                opt_view(declared_type),
                answers,
            ),
{
    let ghost mut answers: Seq<(Seq<char>, Result<Option<SignalView>, Seq<char>>)> = Seq::empty();
    let mut evidence: Vec<DetectorEvidence> = Vec::new();
    let mut observed = TextMap::new();
    let mut i: usize = 0;
    while i < detectors.len()
        invariant
            i <= detectors@.len(),
            answers.len() == i,
            forall|j: int| 0 <= j < i ==> detectors@[j].id_post(#[trigger] answers[j].0) && detectors@[j].detect_post(
                bytes@,
                answers[j].1,
            ),
            evidence_views(evidence@) == answers.map_values(
                |a: (Seq<char>, Result<Option<SignalView>, Seq<char>>)| evidence_spec(a.0, a.1),
            ),
            observed@ == observed_pairs(evidence_views(evidence@)),
        decreases detectors.len() - i,
    {
        let id = detectors[i].detector_id();
        let answer = detectors[i].detect(bytes);
        let ghost a = (id@, answer_view(answer));
        let ev = detector_evidence(id, answer);
        let ghost old_evs = evidence_views(evidence@);
        match &ev.outcome {
            DetectorOutcome::Observed(signal) => {
                observed.insert(signal.media_type.clone(), String::new());
            },
            _ => {},
        }
        evidence.push(ev);
        proof {
            answers = answers.push(a);
            assert(evidence_views(evidence@) =~= old_evs.push(ev@));
            assert(evidence_views(evidence@).drop_last() =~= old_evs);
            assert(answers.map_values(|a: (Seq<char>, Result<Option<SignalView>, Seq<char>>)| evidence_spec(a.0, a.1))
                =~= old_evs.push(evidence_spec(a.0, a.1)));
        }
        i = i + 1;
    }
    let agreement = agreement_of(&observed);
    let declared_matches_agreed_type = match (&declared_type, &agreement) {
        (Some(d), TypeAgreement::Agreed(o)) => Some(*d == *o),
        _ => None,
    };
    let ghost dv = opt_view(declared_type);
    let r = TypeAssessment { declared_type, detector_evidence: evidence, agreement, declared_matches_agreed_type };
    assert(r@.evidence == assessment_spec(dv, answers).evidence);
    assert(r@.agreement == assessment_spec(dv, answers).agreement);
    assert(r@ == assessment_spec(dv, answers));
    r
}

/// Searchable metadata item derived from evidence already in a report.
#[derive(Debug)]
pub struct SearchMetadata {
    /// Logical child path, or `None` for source-level metadata.
    pub path: Option<String>,
    /// Stable metadata key.
    pub key: String,
    /// Exact searchable value.
    pub value: String,
    /// Evidence source that produced this projection.
    pub source: String,
}

/// Abstract value of a metadata item.
pub ghost struct MetaView {
    /// Path.
    pub path: Option<Seq<char>>,
    /// Key.
    pub key: Seq<char>,
    /// Value.
    pub value: Seq<char>,
    /// Evidence source.
    pub source: Seq<char>,
}

impl View for SearchMetadata {
    type V = MetaView;

    open spec fn view(&self) -> MetaView {
        MetaView { path: opt_view(self.path), key: self.key@, value: self.value@, source: self.source@ }
    }
}

/// Views of metadata items.
pub open spec fn meta_views(s: Seq<SearchMetadata>) -> Seq<MetaView> {
    s.map_values(|m: SearchMetadata| m@)
}

/// A metadata view.
pub open spec fn meta(path: Option<Seq<char>>, key: Seq<char>, value: Seq<char>, source: Seq<char>) -> MetaView {
    MetaView { path, key, value, source }
}

/// Rust's rendering of a boolean.
pub open spec fn bool_text(b: bool) -> Seq<char> {
    if b {
        "true"@
    } else {
        "false"@
    }
}

/// Metadata projected from one detector's evidence.
pub open spec fn detector_metadata(e: EvidenceView) -> Seq<MetaView> {
    let id = e.detector_id;
    let key = |suffix: Seq<char>| "detector."@ + id + suffix;
    match e.outcome {
        OutcomeView::Observed(s) => seq![
            meta(None, key(".type"@), s.media_type, id),
            meta(None, key(".confidence_milli"@), decimal(s.confidence_milli as nat), id),
        ],
        OutcomeView::NoMatch => seq![meta(None, key(".state"@), "no_match"@, id)],
        OutcomeView::Failed(err) => seq![meta(None, key(".failure"@), err, id)],
    }
}

/// Metadata projected from all detector evidence, in order.
pub open spec fn evidence_metadata(evs: Seq<EvidenceView>) -> Seq<MetaView>
    decreases evs.len(),
{
    if evs.len() == 0 {
        Seq::empty()
    } else {
        evidence_metadata(evs.drop_last()) + detector_metadata(evs.last())
    }
}

/// Source-level searchable metadata of an assessment: declared type, aggregate state, the
/// declared/agreed comparison, then each detector's evidence.
pub open spec fn root_metadata_spec(a: AssessmentView) -> Seq<MetaView> {
    let declared = match a.declared_type {
        Some(d) => seq![meta(None, "declared_type"@, d, "caller"@)],
        None => Seq::empty(),
    };
    let aggregate = match a.agreement {
        AgreementView::Unknown => seq![meta(None, "observed_type_state"@, "unknown"@, "detector_aggregate"@)],
        AgreementView::Agreed(v) => seq![meta(None, "agreed_type"@, v, "detector_aggregate"@)],
        AgreementView::Disputed(vs) => seq![meta(None, "disputed_types"@, join_spec(vs, ","@), "detector_aggregate"@)],
    };
    let comparison = match a.declared_matches {
        Some(m) => seq![meta(None, "declared_matches_agreed_type"@, bool_text(m), "type_comparison"@)],
        None => Seq::empty(),
    };
    declared + aggregate + comparison + evidence_metadata(a.evidence)
}

fn push_meta(v: &mut Vec<SearchMetadata>, path: Option<String>, key: String, value: String, source: String)
    ensures
        meta_views(final(v)@) == meta_views(old(v)@).push(meta(opt_view(path), key@, value@, source@)),
{
    let ghost before = v@;
    v.push(SearchMetadata { path, key, value, source });
    assert(meta_views(v@) =~= meta_views(before).push(meta(opt_view(path), key@, value@, source@)));
}

fn detector_key(id: &String, suffix: &str) -> (k: String)
    ensures
        k@ == "detector."@ + id@ + suffix@,
{
    let mut k = owned("detector.");
    k.append(id.as_str());
    k.append(suffix);
    k
}

fn bool_string(b: bool) -> (s: String)
    ensures
        s@ == bool_text(b),
{
    if b {
        owned("true")
    } else {
        owned("false")
    }
}

/// Source-level searchable metadata derived from a type assessment.
pub fn root_metadata(assessment: &TypeAssessment) -> (r: Vec<SearchMetadata>)
    ensures
        meta_views(r@) == root_metadata_spec(assessment@),
{
    let ghost a = assessment@;
    let mut out: Vec<SearchMetadata> = Vec::new();
    match &assessment.declared_type {
        Some(d) => push_meta(&mut out, None, owned("declared_type"), d.clone(), owned("caller")),
        None => {},
    }
    match &assessment.agreement {
        TypeAgreement::Unknown => push_meta(
            &mut out,
            None,
            owned("observed_type_state"),
            owned("unknown"),
            owned("detector_aggregate"),
        ),
        TypeAgreement::Agreed(v) => push_meta(&mut out, None, owned("agreed_type"), v.clone(), owned("detector_aggregate")),
        TypeAgreement::Disputed(vs) => push_meta(
            &mut out,
            None,
            owned("disputed_types"),
            join_strings(vs, ","),
            owned("detector_aggregate"),
        ),
    }
    match assessment.declared_matches_agreed_type {
        Some(m) => push_meta(
            &mut out,
            None,
            owned("declared_matches_agreed_type"),
            bool_string(m),
            owned("type_comparison"),
        ),
        None => {},
    }
    let ghost head = meta_views(out@);
    assert(head =~= root_metadata_spec(a).take(head.len() as int)) by {
        assert(root_metadata_spec(a) =~= head + evidence_metadata(a.evidence));
    }
    let ghost evs = a.evidence;
    let mut i: usize = 0;
    assert(evs.take(0) =~= Seq::<EvidenceView>::empty());
    while i < assessment.detector_evidence.len()
        invariant
            i <= evs.len(),
            evs == evidence_views(assessment.detector_evidence@),
            meta_views(out@) == head + evidence_metadata(evs.take(i as int)),
        decreases evs.len() - i,
    {
        let e = &assessment.detector_evidence[i];
        assert(evs[i as int] == e@);
        assert(evs.take(i as int + 1).drop_last() =~= evs.take(i as int));
        let ghost before = meta_views(out@);
        match &e.outcome {
            DetectorOutcome::Observed(signal) => {
                push_meta(&mut out, None, detector_key(&e.detector_id, ".type"), signal.media_type.clone(), e.detector_id.clone());
                push_meta(
                    &mut out,
                    None,
                    detector_key(&e.detector_id, ".confidence_milli"),
                    decimal_string(signal.confidence_milli as u64),
                    e.detector_id.clone(),
                );
            },
            DetectorOutcome::NoMatch => {
                push_meta(&mut out, None, detector_key(&e.detector_id, ".state"), owned("no_match"), e.detector_id.clone());
            },
            DetectorOutcome::Failed(err) => {
                push_meta(&mut out, None, detector_key(&e.detector_id, ".failure"), err.clone(), e.detector_id.clone());
            },
        }
        assert(meta_views(out@) =~= before + detector_metadata(evs[i as int]));
        assert(head + evidence_metadata(evs.take(i as int + 1)) =~= head + evidence_metadata(evs.take(i as int))
            + detector_metadata(evs[i as int]));
        i = i + 1;
    }
    assert(evs.take(evs.len() as int) =~= evs);
    assert(root_metadata_spec(a) =~= head + evidence_metadata(evs));
    out
}

/// Index of the last `/` before position `j`, or `-1`.
pub open spec fn last_slash(s: Seq<char>, j: int) -> int
    decreases j,
{
    if j <= 0 || j > s.len() {
        -1
    } else if s[j - 1] == '/' {
        j - 1
    } else {
        last_slash(s, j - 1)
    }
}

/// The parent of a slash-separated logical path: the text before its last `/`, if any.
pub open spec fn parent_spec(s: Seq<char>) -> Option<Seq<char>> {
    let k = last_slash(s, s.len() as int);
    if k < 0 {
        None
    } else {
        Some(s.take(k))
    }
}

proof fn lemma_last_slash_range(s: Seq<char>, j: int)
    requires
        0 <= j <= s.len(),
    ensures
        -1 <= last_slash(s, j) < j,
    decreases j,
{
    if j > 0 && s[j - 1] != '/' {
        lemma_last_slash_range(s, j - 1);
    }
}

/// The parent of a logical path.
pub fn logical_parent(path: &str) -> (r: Option<String>)
    ensures
        opt_view(r) == parent_spec(path@),
{
    let cs = chars_of(path);
    let mut j: usize = cs.len();
    while j > 0 && cs[j - 1] != '/'
        invariant
            j <= cs@.len(),
            cs@ == path@,
            last_slash(cs@, cs@.len() as int) == last_slash(cs@, j as int),
        decreases j,
    {
        j = j - 1;
    }
    if j == 0 {
        return None;
    }
    Some(crate::text_ops::string_of(vstd::slice::slice_subrange(cs.as_slice(), 0, j - 1)))
}

/// Generic child relationship projected from an archive inventory.
#[derive(Debug)]
pub struct ChildRelationship {
    /// Parent logical path when this is a nested child.
    pub parent_path: Option<String>,
    /// Child logical path relative to the original source.
    pub child_path: String,
    /// Member kind.
    pub kind: MemberKind,
    /// Immediate containing archive depth.
    pub depth: u32,
    /// Exact retained byte size when byte-backed.
    pub byte_size: u64,
    /// Exact child digest when byte-backed.
    pub sha256: Option<String>,
    /// Child type assessment when bytes were available for detection.
    pub type_assessment: Option<TypeAssessment>,
}

/// Searchable metadata of one child: kind, size, depth, digest and agreed or disputed types.
pub open spec fn child_metadata_spec(c: ChildRelationship) -> Seq<MetaView> {
    let p = Some(c.child_path@);
    let base = seq![
        meta(p, "member_kind"@, member_kind_token(c.kind), "a12_inventory"@),
        meta(p, "byte_size"@, decimal(c.byte_size as nat), "a12_inventory"@),
        meta(p, "depth"@, decimal(c.depth as nat), "a12_inventory"@),
    ];
    let digest = match c.sha256 {
        Some(d) => seq![meta(p, "sha256"@, d@, "a12_inventory"@)],
        None => Seq::empty(),
    };
    let types = match c.type_assessment {
        Some(a) => match a@.agreement {
            AgreementView::Agreed(v) => seq![meta(p, "agreed_type"@, v, "detector_aggregate"@)],
            AgreementView::Disputed(vs) => seq![meta(p, "disputed_types"@, join_spec(vs, ","@), "detector_aggregate"@)],
            AgreementView::Unknown => Seq::empty(),
        },
        None => Seq::empty(),
    };
    base + digest + types
}

/// Append the searchable metadata of one child.
pub fn append_child_metadata(metadata: &mut Vec<SearchMetadata>, child: &ChildRelationship)
    ensures
        meta_views(final(metadata)@) == meta_views(old(metadata)@) + child_metadata_spec(*child),
{
    let ghost before = meta_views(metadata@);
    push_meta(metadata, Some(child.child_path.clone()), owned("member_kind"), owned(child.kind.as_str()), owned("a12_inventory"));
    push_meta(metadata, Some(child.child_path.clone()), owned("byte_size"), decimal_string(child.byte_size), owned("a12_inventory"));
    push_meta(metadata, Some(child.child_path.clone()), owned("depth"), decimal_string(child.depth as u64), owned("a12_inventory"));
    match &child.sha256 {
        Some(d) => push_meta(metadata, Some(child.child_path.clone()), owned("sha256"), d.clone(), owned("a12_inventory")),
        None => {},
    }
    match &child.type_assessment {
        Some(a) => match &a.agreement {
            TypeAgreement::Agreed(v) => push_meta(
                metadata,
                Some(child.child_path.clone()),
                owned("agreed_type"),
                v.clone(),
                owned("detector_aggregate"),
            ),
            TypeAgreement::Disputed(vs) => push_meta(
                metadata,
                Some(child.child_path.clone()),
                owned("disputed_types"),
                join_strings(vs, ","),
                owned("detector_aggregate"),
            ),
            TypeAgreement::Unknown => {},
        },
        None => {},
    }
    assert(meta_views(metadata@) =~= before + child_metadata_spec(*child));
}

/// Truthful progressive result; unsupported and uncertain regions stay explicit.
#[derive(Debug)]
pub struct ProgressiveReport {
    /// SHA-256 of the immutable original source bytes.
    pub source_sha256: String,
    /// Caller-requested maximum level.
    pub requested_level: ProgressiveLevel,
    /// Highest level actually achieved without inventing unsupported semantics.
    pub achieved_level: ProgressiveLevel,
    /// Source-level type assessment.
    pub type_assessment: TypeAssessment,
    /// Child relationship graph projected from archive inventory evidence.
    pub children: Vec<ChildRelationship>,
    /// Searchable evidence-derived metadata.
    pub searchable_metadata: Vec<SearchMetadata>,
    /// Regions or progressions that could not be truthfully decomposed.
    pub unsupported_regions: Vec<String>,
    /// Bounded warnings inherited from mechanical facilities.
    pub warnings: Vec<String>,
    /// Bounded limitations.
    pub limitations: Vec<String>,
    /// Underlying archive outcome when archive decomposition was attempted.
    pub archive_outcome: Option<DecompositionOutcome>,
}

} // verus!
