//! Deterministic, backend-neutral archive decomposition planning: canonical member paths,
//! recursive resource budgets, digest-bound recovered members and truthful outcomes.
use vstd::prelude::*;
use crate::archive_model::{
    member_kind_token, outcome_token, DecompositionBudget, DecompositionOutcome, InventoryEntry, MemberKind, ParseReport, ParseTerminal,
    RecoveredMember,
};
use crate::archive_path::{canonical_member_path, canonical_path_spec, join_path, join_path_spec};
use crate::digest::{sha256_hex, sha256_hex_of};
use crate::identity::EntityRef;
use crate::partition_map::{opt_view, push_string, string_views};
use crate::text::{decimal, numbered_message, owned};
use crate::text_ops::contains_text;

verus! {

/// Failures that prevent a truthful decomposition result.
#[derive(Debug)]
pub enum DecompositionError {
    /// Backend invocation failed before it could return a bounded report.
    Backend(String),
    /// An archive member path violated path policy.
    InvalidPath(String),
    /// Two archive members canonicalized to the same path.
    DuplicatePath(String),
    /// A link or special-file entry is outside the accepted materialization policy.
    EntryKindRejected {
        /// Canonical member path.
        path: String,
        /// Rejected member kind.
        kind: &'static str,
    },
    /// A requested decomposition budget is invalid; the field is named.
    InvalidBudget(&'static str),
    /// Numeric accounting exceeded representable bounds.
    AccountingOverflow,
    /// The source does not match the supplied bytes, workspace or evidence.
    SourceMismatch,
    /// A canonical record did not have the expected shape.
    TypeMismatch,
    /// The injected clock cannot produce frozen UTC timestamps.
    InvalidTimestamp,
}

/// Immutable identity evidence for one parser backend generation.
#[derive(Debug)]
pub struct BackendIdentity {
    /// Canonical provider identity.
    pub provider_ref: EntityRef,
    /// Canonical provider generation.
    pub provider_generation: u64,
    /// Backend implementation family, for example `libarchive`.
    pub implementation: String,
    /// Exact backend implementation version.
    pub implementation_version: String,
    /// Locked source or archive SHA-256, when applicable.
    pub source_sha256: String,
    /// Exact executable or helper SHA-256.
    pub executable_sha256: String,
}

/// Replaceable parser boundary; implementations never create canonical records or extract to
/// the host filesystem.
///
/// Each method's answers are described by a relation the implementation may state; by default
/// any answer is allowed.
pub trait ArchiveBackend {
    /// Whether `r` is identity evidence this backend may give.
    open spec fn identity_post(&self, r: BackendIdentity) -> bool {
        true
    }

    /// Whether `r` is a result this backend may give for parsing `bytes`.
    open spec fn parse_post(&self, bytes: Seq<u8>, r: Result<ParseReport, DecompositionError>) -> bool {
        true
    }

    /// Exact backend identity and generation evidence.
    fn identity(&self) -> (r: BackendIdentity)
        ensures
            self.identity_post(r),
    ;

    /// Parse one archive byte sequence into a bounded mechanical report; an error only when no
    /// bounded report can be produced at all.
    fn parse(&self, bytes: &[u8]) -> (r: Result<ParseReport, DecompositionError>)
        ensures
            self.parse_post(bytes@, r),
    ;
}

/// An error a walk can meet: an accounting overflow, or one the backend may give for some bytes.
pub open spec fn backend_error<B: ArchiveBackend>(backend: &B, e: DecompositionError) -> bool {
    e is AccountingOverflow || exists|bytes: Seq<u8>| #[trigger] backend.parse_post(bytes, Err(e))
}

/// A request over one exact source object revision.
#[derive(Debug)]
pub struct DecompositionSpec {
    /// Workspace scope.
    pub workspace_ref: EntityRef,
    /// Authority authorizing decomposition.
    pub authority_ref: EntityRef,
    /// Exact immutable source object revision.
    pub source_revision_ref: EntityRef,
    /// Recursive resource budget.
    pub budget: DecompositionBudget,
    /// Requested frozen decomposition level token.
    pub requested_level: String,
}

/// Backend-neutral deterministic plan.
#[derive(Debug)]
pub struct DecompositionPlan {
    /// Stable digest identity from the source revision and admitted request, excluding the
    /// replaceable backend.
    pub decomposition_identity: String,
    /// Exact source revision.
    pub source_revision_ref: EntityRef,
    /// Backend evidence used for this observation.
    pub backend: BackendIdentity,
    /// Deterministic inventory order.
    pub inventory: Vec<InventoryEntry>,
    /// Byte-backed members eligible for registration.
    pub recovered_members: Vec<RecoveredMember>,
    /// Final truthful outcome.
    pub outcome: DecompositionOutcome,
    /// Requested level.
    pub requested_level: String,
    /// Achieved level.
    pub achieved_level: String,
    /// Budget admitted for this run.
    pub budget_request: DecompositionBudget,
    /// Number of inventory members processed.
    pub processed_members: u64,
    /// Cumulative decoded regular-member bytes processed.
    pub processed_bytes: u64,
    /// Explicit unknown-gap descriptions.
    pub unknown_gaps: Vec<String>,
    /// Bounded warnings.
    pub warnings: Vec<String>,
    /// Bounded limitations.
    pub limitations: Vec<String>,
}

/// The budget field that makes a budget invalid, if any.
pub open spec fn budget_fault(b: DecompositionBudget) -> Option<Seq<char>> {
    if b.max_members == 0 {
        Some("max_members"@)
    } else if b.max_expanded_bytes == 0 {
        Some("max_expanded_bytes"@)
    } else if b.max_member_bytes == 0 || b.max_member_bytes > b.max_expanded_bytes {
        Some("max_member_bytes"@)
    } else if b.max_path_chars == 0 || b.max_path_chars > 8192 {
        Some("max_path_chars"@)
    } else {
        None
    }
}

/// Reject a budget with a zero or inconsistent bound.
pub fn validate_budget(budget: DecompositionBudget) -> (r: Result<(), DecompositionError>)
    ensures
        match r {
            Ok(_) => budget_fault(budget) is None,
            Err(e) => e matches DecompositionError::InvalidBudget(f) && budget_fault(budget) == Some(f@),
        },
{
    if budget.max_members == 0 {
        return Err(DecompositionError::InvalidBudget("max_members"));
    }
    if budget.max_expanded_bytes == 0 {
        return Err(DecompositionError::InvalidBudget("max_expanded_bytes"));
    }
    if budget.max_member_bytes == 0 || budget.max_member_bytes > budget.max_expanded_bytes {
        return Err(DecompositionError::InvalidBudget("max_member_bytes"));
    }
    if budget.max_path_chars == 0 || budget.max_path_chars > 8192 {
        return Err(DecompositionError::InvalidBudget("max_path_chars"));
    }
    Ok(())
}

/// The outcome a parser terminal condition stands for.
pub open spec fn terminal_outcome_spec(t: ParseTerminal) -> DecompositionOutcome {
    match t {
        ParseTerminal::Complete => DecompositionOutcome::Complete,
        ParseTerminal::LockedEncrypted => DecompositionOutcome::LockedEncrypted,
        ParseTerminal::CredentialRequired => DecompositionOutcome::CredentialRequired,
        ParseTerminal::WrongCredential => DecompositionOutcome::WrongCredential,
        ParseTerminal::UnsupportedEncryption => DecompositionOutcome::UnsupportedEncryption,
        ParseTerminal::Malformed => DecompositionOutcome::Malformed,
        ParseTerminal::Truncated => DecompositionOutcome::Truncated,
        ParseTerminal::ParserError => DecompositionOutcome::ParserError,
        ParseTerminal::ParserCrash => DecompositionOutcome::ParserCrash,
        ParseTerminal::Timeout => DecompositionOutcome::Timeout,
        ParseTerminal::BudgetExhausted => DecompositionOutcome::BudgetExhausted,
        ParseTerminal::UnsupportedFormat => DecompositionOutcome::UnsupportedFormat,
        ParseTerminal::Opaque => DecompositionOutcome::Opaque,
        ParseTerminal::Cancelled => DecompositionOutcome::Cancelled,
        ParseTerminal::Failed => DecompositionOutcome::Failed,
    }
}

/// Map a parser terminal condition to its outcome.
pub fn terminal_outcome(terminal: ParseTerminal) -> (r: DecompositionOutcome)
    ensures
        r == terminal_outcome_spec(terminal),
{
    match terminal {
        ParseTerminal::Complete => DecompositionOutcome::Complete,
        ParseTerminal::LockedEncrypted => DecompositionOutcome::LockedEncrypted,
        ParseTerminal::CredentialRequired => DecompositionOutcome::CredentialRequired,
        ParseTerminal::WrongCredential => DecompositionOutcome::WrongCredential,
        ParseTerminal::UnsupportedEncryption => DecompositionOutcome::UnsupportedEncryption,
        ParseTerminal::Malformed => DecompositionOutcome::Malformed,
        ParseTerminal::Truncated => DecompositionOutcome::Truncated,
        ParseTerminal::ParserError => DecompositionOutcome::ParserError,
        ParseTerminal::ParserCrash => DecompositionOutcome::ParserCrash,
        ParseTerminal::Timeout => DecompositionOutcome::Timeout,
        ParseTerminal::BudgetExhausted => DecompositionOutcome::BudgetExhausted,
        ParseTerminal::UnsupportedFormat => DecompositionOutcome::UnsupportedFormat,
        ParseTerminal::Opaque => DecompositionOutcome::Opaque,
        ParseTerminal::Cancelled => DecompositionOutcome::Cancelled,
        ParseTerminal::Failed => DecompositionOutcome::Failed,
    }
}

/// How an outcome absorbs a further incompleteness: the first one replaces `Complete`; a
/// different one makes the outcome `Partial`, except that `Failed` stays `Failed`.
pub open spec fn merge_outcome(current: DecompositionOutcome, next: DecompositionOutcome) -> DecompositionOutcome {
    if current == DecompositionOutcome::Complete {
        next
    } else if current != next && current != DecompositionOutcome::Failed {
        DecompositionOutcome::Partial
    } else {
        current
    }
}

/// Once an incompleteness has been recorded the outcome is never `Complete` again.
pub proof fn lemma_merge_never_complete(current: DecompositionOutcome, next: DecompositionOutcome)
    requires
        next != DecompositionOutcome::Complete,
    ensures
        merge_outcome(current, next) != DecompositionOutcome::Complete,
{
}

/// Mutable planning state.
pub struct PlanState {
    inventory: Vec<InventoryEntry>,
    recovered: Vec<RecoveredMember>,
    seen: Vec<String>,
    processed_bytes: u64,
    warnings: Vec<String>,
    limitations: Vec<String>,
    unknown_gaps: Vec<String>,
    outcome: DecompositionOutcome,
}

/// A recovered member agrees with the inventory entry it names.
pub open spec fn recovered_ok(inv: Seq<InventoryEntry>, r: RecoveredMember, b: DecompositionBudget) -> bool {
    &&& r.inventory_index < inv.len()
    &&& inv[r.inventory_index as int].kind == MemberKind::Regular
    &&& inv[r.inventory_index as int].logical_path@ == r.logical_path@
    &&& inv[r.inventory_index as int].byte_size == r.bytes@.len()
    &&& inv[r.inventory_index as int].depth == r.depth
    &&& opt_view(inv[r.inventory_index as int].member_sha256) == Some(r.member_sha256@)
    &&& r.member_sha256@ == sha256_hex_of(r.bytes@)
    &&& r.bytes@.len() <= b.max_member_bytes
}

/// What every plan keeps: bounded member count, bytes and depth; distinct logical paths;
/// recovered members bound to regular inventory entries by size and digest; and no `Complete`
/// outcome while an unknown gap is recorded.
pub open spec fn plan_wf(
    inv: Seq<InventoryEntry>,
    rec: Seq<RecoveredMember>,
    b: DecompositionBudget,
    processed: u64,
    outcome: DecompositionOutcome,
    gaps: Seq<Seq<char>>,
) -> bool {
    &&& inv.len() <= b.max_members
    &&& processed <= b.max_expanded_bytes
    &&& forall|i: int, j: int| 0 <= i < j < inv.len() ==> (#[trigger] inv[i]).logical_path@ != (#[trigger] inv[j]).logical_path@
    &&& forall|i: int| 0 <= i < inv.len() ==> (#[trigger] inv[i]).depth <= b.max_depth
    &&& forall|k: int| 0 <= k < rec.len() ==> recovered_ok(inv, #[trigger] rec[k], b)
    &&& (outcome == DecompositionOutcome::Complete ==> gaps.len() == 0)
}

impl PlanState {
    /// The state keeps the plan properties, and every inventory path has been seen.
    pub closed spec fn wf(&self, b: DecompositionBudget) -> bool {
        &&& plan_wf(
            self.inventory@,
            self.recovered@,
            b,
            self.processed_bytes,
            self.outcome,
            string_views(self.unknown_gaps@),
        )
        &&& forall|i: int| 0 <= i < self.inventory@.len() ==> string_views(self.seen@).contains(
            (#[trigger] self.inventory@[i]).logical_path@,
        )
    }
}

fn push_if_absent(v: &mut Vec<String>, s: &String)
    ensures
        string_views(final(v)@) == if string_views(old(v)@).contains(s@) {
            string_views(old(v)@)
        } else {
            string_views(old(v)@).push(s@)
        },
        string_views(old(v)@).is_prefix_of(string_views(final(v)@)),
        string_views(final(v)@).contains(s@),
{
    let ghost o = string_views(v@);
    if !contains_text(v, s) {
        push_string(v, s.clone());
        assert(o =~= o.push(s@).subrange(0, o.len() as int));
        assert(o.push(s@)[o.len() as int] == s@);
    } else {
        assert(o =~= o.subrange(0, o.len() as int));
    }
}

/// The planning state only grows: entries, recovered members, seen paths, warnings,
/// limitations and gaps are extended, processed bytes never decrease, and an incomplete outcome
/// never becomes complete again.
spec fn grows(o: PlanState, n: PlanState) -> bool {
    &&& o.inventory@.is_prefix_of(n.inventory@)
    &&& o.recovered@.is_prefix_of(n.recovered@)
    &&& string_views(o.seen@).is_prefix_of(string_views(n.seen@))
    &&& string_views(o.warnings@).is_prefix_of(string_views(n.warnings@))
    &&& string_views(o.limitations@).is_prefix_of(string_views(n.limitations@))
    &&& string_views(o.unknown_gaps@).is_prefix_of(string_views(n.unknown_gaps@))
    &&& o.processed_bytes <= n.processed_bytes
    &&& (o.outcome != DecompositionOutcome::Complete ==> n.outcome != DecompositionOutcome::Complete)
}

proof fn lemma_prefix_trans<T>(a: Seq<T>, b: Seq<T>, c: Seq<T>)
    requires
        a.is_prefix_of(b),
        b.is_prefix_of(c),
    ensures
        a.is_prefix_of(c),
{
    assert forall|i: int| 0 <= i < a.len() implies a[i] == c.subrange(0, a.len() as int)[i] by {
        assert(a[i] == b.subrange(0, a.len() as int)[i]);
        assert(b[i] == c.subrange(0, b.len() as int)[i]);
    }
    assert(a =~= c.subrange(0, a.len() as int));
}

proof fn lemma_prefix_refl<T>(a: Seq<T>)
    ensures
        a.is_prefix_of(a),
{
    assert(a =~= a.subrange(0, a.len() as int));
}

proof fn lemma_prefix_push<T>(a: Seq<T>, x: T)
    ensures
        a.is_prefix_of(a.push(x)),
{
    assert(a =~= a.push(x).subrange(0, a.len() as int));
}

proof fn lemma_prefix_append<T>(a: Seq<T>, m: Seq<T>)
    ensures
        a.is_prefix_of(a + m),
{
    assert(a =~= (a + m).subrange(0, a.len() as int));
}

proof fn lemma_prefix_contains<T>(a: Seq<T>, b: Seq<T>, x: T)
    requires
        a.is_prefix_of(b),
        a.contains(x),
    ensures
        b.contains(x),
{
    let i = choose|i: int| 0 <= i < a.len() && a[i] == x;
    assert(b[i] == b.subrange(0, a.len() as int)[i]);
}

proof fn lemma_grows_refl(a: PlanState)
    ensures
        grows(a, a),
{
    lemma_prefix_refl(a.inventory@);
    lemma_prefix_refl(a.recovered@);
    lemma_prefix_refl(string_views(a.seen@));
    lemma_prefix_refl(string_views(a.warnings@));
    lemma_prefix_refl(string_views(a.limitations@));
    lemma_prefix_refl(string_views(a.unknown_gaps@));
}

proof fn lemma_grows_trans(a: PlanState, b: PlanState, c: PlanState)
    requires
        grows(a, b),
        grows(b, c),
    ensures
        grows(a, c),
{
    lemma_prefix_trans(a.inventory@, b.inventory@, c.inventory@);
    lemma_prefix_trans(a.recovered@, b.recovered@, c.recovered@);
    lemma_prefix_trans(string_views(a.seen@), string_views(b.seen@), string_views(c.seen@));
    lemma_prefix_trans(string_views(a.warnings@), string_views(b.warnings@), string_views(c.warnings@));
    lemma_prefix_trans(string_views(a.limitations@), string_views(b.limitations@), string_views(c.limitations@));
    lemma_prefix_trans(string_views(a.unknown_gaps@), string_views(b.unknown_gaps@), string_views(c.unknown_gaps@));
}

/// Whether a reason was recorded both as an unknown gap and as a limitation.
spec fn recorded(st: PlanState, reason: Seq<char>) -> bool {
    string_views(st.unknown_gaps@).contains(reason) && string_views(st.limitations@).contains(reason)
}

proof fn lemma_recorded_grows(a: PlanState, b: PlanState, reason: Seq<char>)
    requires
        recorded(a, reason),
        grows(a, b),
    ensures
        recorded(b, reason),
{
    lemma_prefix_contains(string_views(a.unknown_gaps@), string_views(b.unknown_gaps@), reason);
    lemma_prefix_contains(string_views(a.limitations@), string_views(b.limitations@), reason);
}

fn mark_incomplete(st: &mut PlanState, outcome: DecompositionOutcome, reason: String, b: Ghost<DecompositionBudget>)
    requires
        old(st).wf(b@),
        outcome != DecompositionOutcome::Complete,
    ensures
        final(st).wf(b@),
        final(st).inventory@ == old(st).inventory@,
        final(st).recovered@ == old(st).recovered@,
        final(st).processed_bytes == old(st).processed_bytes,
        final(st).outcome == merge_outcome(old(st).outcome, outcome),
        final(st).outcome != DecompositionOutcome::Complete,
        final(st).seen@ == old(st).seen@,
        grows(*old(st), *final(st)),
        recorded(*final(st), reason@),
{
    proof {
        lemma_prefix_refl(st.inventory@);
        lemma_prefix_refl(st.recovered@);
        lemma_prefix_refl(string_views(st.seen@));
        lemma_prefix_refl(string_views(st.warnings@));
    }
    if st.outcome == DecompositionOutcome::Complete {
        st.outcome = outcome;
    } else if st.outcome != outcome && st.outcome != DecompositionOutcome::Failed {
        st.outcome = DecompositionOutcome::Partial;
    }
    push_if_absent(&mut st.unknown_gaps, &reason);
    push_if_absent(&mut st.limitations, &reason);
}

fn extend_strings(v: &mut Vec<String>, more: &Vec<String>)
    ensures
        string_views(final(v)@) == string_views(old(v)@) + string_views(more@),
{
    let ghost start = string_views(v@);
    let mut i: usize = 0;
    while i < more.len()
        invariant
            i <= more@.len(),
            string_views(v@) == start + string_views(more@).take(i as int),
        decreases more.len() - i,
    {
        push_string(v, more[i].clone());
        assert(string_views(more@).take(i as int + 1) =~= string_views(more@).take(i as int).push(more@[i as int]@));
        assert(start + string_views(more@).take(i as int + 1) =~= (start + string_views(more@).take(i as int)).push(
            more@[i as int]@,
        ));
        i = i + 1;
    }
    assert(string_views(more@).take(more@.len() as int) =~= string_views(more@));
}

/// Entry `k` of the state is the regular member `logical` read from `container` at `depth`
/// with the given bytes.
spec fn regular_entry_at(st: PlanState, k: int, logical: Seq<char>, container: Seq<char>, depth: u32, bytes: Seq<u8>) -> bool {
    &&& 0 <= k < st.inventory@.len()
    &&& st.inventory@[k].logical_path@ == logical
    &&& st.inventory@[k].kind == MemberKind::Regular
    &&& st.inventory@[k].depth == depth
    &&& st.inventory@[k].container_sha256@ == container
    &&& opt_view(st.inventory@[k].member_sha256) == Some(sha256_hex_of(bytes))
    &&& st.inventory@[k].byte_size == bytes.len()
}

/// Recovered member `k` of the state holds the bytes of inventory entry `entry` under `parent`.
spec fn recovered_at(
    st: PlanState,
    k: int,
    entry: int,
    parent: Option<usize>,
    logical: Seq<char>,
    container: Seq<char>,
    depth: u32,
    bytes: Seq<u8>,
) -> bool {
    &&& 0 <= k < st.recovered@.len()
    &&& st.recovered@[k].inventory_index == entry
    &&& st.recovered@[k].parent_inventory_index == parent
    &&& st.recovered@[k].logical_path@ == logical
    &&& st.recovered@[k].bytes@ == bytes
    &&& st.recovered@[k].container_sha256@ == container
    &&& st.recovered@[k].member_sha256@ == sha256_hex_of(bytes)
    &&& st.recovered@[k].depth == depth
}

/// Entry `k` of the state is the non-regular member `logical` of `kind`, without bytes.
spec fn plain_entry_at(st: PlanState, k: int, logical: Seq<char>, kind: MemberKind, container: Seq<char>, depth: u32) -> bool {
    &&& 0 <= k < st.inventory@.len()
    &&& st.inventory@[k].logical_path@ == logical
    &&& st.inventory@[k].kind == kind
    &&& st.inventory@[k].depth == depth
    &&& st.inventory@[k].container_sha256@ == container
    &&& st.inventory@[k].member_sha256 is None
    &&& st.inventory@[k].byte_size == 0
}

/// What admitting one regular member does, from state `o` to state `n`: a member over the
/// per-member budget, a byte total that overflows, or one over the expanded-byte budget is
/// refused and recorded; otherwise the entry and its recovered bytes are appended and counted,
/// and nested content is walked below the depth limit.
spec fn regular_outcome(
    o: PlanState,
    n: PlanState,
    r: Result<bool, DecompositionError>,
    b: DecompositionBudget,
    bytes: Seq<u8>,
    logical: Seq<char>,
    container: Seq<char>,
    depth: u32,
    parent: Option<usize>,
) -> bool {
    let len = bytes.len();
    if len > b.max_member_bytes {
        &&& r == Ok::<bool, DecompositionError>(false)
        &&& n.inventory@ == o.inventory@
        &&& n.recovered@ == o.recovered@
        &&& n.outcome != DecompositionOutcome::Complete
        &&& recorded(n, "member exceeds per-member budget: "@ + logical)
    } else if o.processed_bytes + len > u64::MAX {
        &&& r matches Err(DecompositionError::AccountingOverflow)
        &&& n.inventory@ == o.inventory@
        &&& n.recovered@ == o.recovered@
        &&& n.processed_bytes == o.processed_bytes
        &&& n.outcome == o.outcome
    } else if o.processed_bytes + len > b.max_expanded_bytes {
        &&& r == Ok::<bool, DecompositionError>(false)
        &&& n.inventory@ == o.inventory@
        &&& n.recovered@ == o.recovered@
        &&& n.outcome != DecompositionOutcome::Complete
        &&& recorded(n, "expanded-byte budget exhausted at: "@ + logical)
    } else {
        &&& regular_entry_at(n, o.inventory@.len() as int, logical, container, depth, bytes)
        &&& recovered_at(n, o.recovered@.len() as int, o.inventory@.len() as int, parent, logical, container, depth, bytes)
        &&& n.processed_bytes >= o.processed_bytes + len
        &&& (r is Ok ==> r == Ok::<bool, DecompositionError>(true))
        &&& (depth == b.max_depth ==> r == Ok::<bool, DecompositionError>(true))
    }
}

/// Note recorded for a parser terminal condition other than completion.
pub open spec fn terminal_note(o: DecompositionOutcome) -> Seq<char> {
    "parser terminal: "@ + outcome_token(o)
}

/// A parser terminal condition is recorded as the outcome of the same name, and the gap noted for
/// it names that terminal.
pub proof fn lemma_terminal_outcome_named(t: ParseTerminal)
    ensures
        outcome_token(terminal_outcome_spec(t)) == crate::archive_model::terminal_token(t),
        terminal_note(terminal_outcome_spec(t)) == "parser terminal: "@ + crate::archive_model::terminal_token(t),
        terminal_outcome_spec(t) != DecompositionOutcome::Partial,
{
}

fn walk_container<B: ArchiveBackend>(
    st: &mut PlanState,
    backend: &B,
    b: DecompositionBudget,
    bytes: &[u8],
    container_digest: &String,
    depth: u32,
    parent_index: Option<usize>,
    prefix: &String,
) -> (r: Result<(), DecompositionError>)
    requires
        old(st).wf(b),
        depth <= b.max_depth,
    ensures
        r matches Err(e) ==> backend_error(backend, e),
        final(st).wf(b),
        grows(*old(st), *final(st)),
    decreases b.max_depth - depth, 3int,
{
    let ghost st0 = *st;
    proof {
        lemma_grows_refl(st0);
    }
    if depth > b.max_depth {
        mark_incomplete(st, DecompositionOutcome::BudgetExhausted, numbered_message("nested depth exceeds ", b.max_depth as u64, ""), Ghost(b));
        return Ok(());
    }
    let report = backend.parse(bytes)?;
    extend_strings(&mut st.warnings, &report.warnings);
    extend_strings(&mut st.limitations, &report.limitations);
    proof {
        lemma_prefix_append(string_views(st0.warnings@), string_views(report.warnings@));
        lemma_prefix_append(string_views(st0.limitations@), string_views(report.limitations@));
    }
    let ghost st1 = *st;
    assert(grows(st0, st1));
    let skip = match report.terminal {
        ParseTerminal::UnsupportedFormat => depth > 0,
        ParseTerminal::Opaque => depth > 0,
        _ => false,
    };
    if skip {
        return Ok(());
    }
    let r = consume_report(st, backend, b, report, container_digest, depth, parent_index, prefix);
    proof {
        lemma_grows_trans(st0, st1, *st);
    }
    r
}

fn consume_report<B: ArchiveBackend>(
    st: &mut PlanState,
    backend: &B,
    b: DecompositionBudget,
    report: ParseReport,
    container_digest: &String,
    depth: u32,
    parent_index: Option<usize>,
    prefix: &String,
) -> (r: Result<(), DecompositionError>)
    requires
        old(st).wf(b),
        depth <= b.max_depth,
    ensures
        r matches Err(e) ==> backend_error(backend, e),
        final(st).wf(b),
        grows(*old(st), *final(st)),
        r is Ok && terminal_outcome_spec(report.terminal) != DecompositionOutcome::Complete ==> final(st).outcome
            != DecompositionOutcome::Complete && recorded(
            *final(st),
            terminal_note(terminal_outcome_spec(report.terminal)),
        ),
        r is Ok && final(st).outcome == DecompositionOutcome::Complete ==> final(st).inventory@.len() >= old(
            st,
        ).inventory@.len() + report.members@.len(),
        r is Ok && old(st).inventory@.len() >= b.max_members && report.members@.len() > 0 ==> recorded(
            *final(st),
            "member-count budget exhausted"@,
        ),
    decreases b.max_depth - depth, 2int,
{
    let ghost st0 = *st;
    proof {
        lemma_grows_refl(st0);
    }
    let mut i: usize = 0;
    let mut stop = false;
    while i < report.members.len() && !stop
        invariant
            st.wf(b),
            depth <= b.max_depth,
            i <= report.members@.len(),
            grows(st0, *st),
            st0 == *old(st),
            !stop && st.outcome == DecompositionOutcome::Complete ==> st.inventory@.len() >= st0.inventory@.len() + i,
            stop ==> st.outcome != DecompositionOutcome::Complete,
            st0.inventory@.len() >= b.max_members ==> i == 0 && (stop ==> recorded(*st, "member-count budget exhausted"@)),
        decreases report.members@.len() - i + (if stop { 0int } else { 1int }),
    {
        let ghost prev = *st;
        if st.inventory.len() as u64 >= b.max_members {
            mark_incomplete(st, DecompositionOutcome::BudgetExhausted, owned("member-count budget exhausted"), Ghost(b));
            proof {
                lemma_grows_trans(st0, prev, *st);
            }
            stop = true;
        } else {
            proof {
                lemma_prefix_len(st0.inventory@, prev.inventory@);
            }
            let res = consume_member(st, backend, b, &report.members[i].path, report.members[i].kind, &report.members[i].bytes, container_digest, depth, parent_index, prefix);
            proof {
                lemma_grows_trans(st0, prev, *st);
            }
            let go = res?;
            if !go {
                stop = true;
            } else {
                i = i + 1;
            }
        }
    }
    let ghost mid = *st;
    let mapped = terminal_outcome(report.terminal);
    if mapped != DecompositionOutcome::Complete {
        let mut reason = owned("parser terminal: ");
        reason.append(mapped.as_str());
        mark_incomplete(st, mapped, reason, Ghost(b));
        proof {
            lemma_grows_trans(st0, mid, *st);
            if st0.inventory@.len() >= b.max_members && report.members@.len() > 0 {
                lemma_recorded_grows(mid, *st, "member-count budget exhausted"@);
            }
        }
    } else {
        proof {
            lemma_grows_refl(mid);
        }
    }
    Ok(())
}

proof fn lemma_prefix_len<T>(a: Seq<T>, b: Seq<T>)
    requires
        a.is_prefix_of(b),
    ensures
        a.len() <= b.len(),
{
}

fn consume_member<B: ArchiveBackend>(
    st: &mut PlanState,
    backend: &B,
    b: DecompositionBudget,
    path: &String,
    kind: MemberKind,
    bytes: &Vec<u8>,
    container_digest: &String,
    depth: u32,
    parent_index: Option<usize>,
    prefix: &String,
) -> (r: Result<bool, DecompositionError>)
    requires
        old(st).wf(b),
        depth <= b.max_depth,
        old(st).inventory@.len() < b.max_members,
    ensures
        r matches Err(e) ==> backend_error(backend, e),
        final(st).wf(b),
        grows(*old(st), *final(st)),
        r matches Ok(true) ==> final(st).inventory@.len() > old(st).inventory@.len(),
        r matches Ok(false) ==> final(st).outcome != DecompositionOutcome::Complete,
        match canonical_path_spec(path@, b.max_path_chars as int) {
            None => {
                &&& r == Ok::<bool, DecompositionError>(false)
                &&& final(st).inventory@ == old(st).inventory@
                &&& final(st).recovered@ == old(st).recovered@
                &&& recorded(*final(st), "rejected archive path: "@ + path@)
            },
            Some(l) => {
                let logical = join_path_spec(prefix@, l);
                if string_views(old(st).seen@).contains(logical) {
                    &&& r == Ok::<bool, DecompositionError>(false)
                    &&& final(st).inventory@ == old(st).inventory@
                    &&& final(st).recovered@ == old(st).recovered@
                    &&& recorded(*final(st), "duplicate canonical path: "@ + logical)
                } else if kind == MemberKind::Regular {
                    exists|m: PlanState|
                        m.inventory@ == old(st).inventory@ && m.recovered@ == old(st).recovered@ && m.processed_bytes
                            == old(st).processed_bytes && m.outcome == old(st).outcome && #[trigger] regular_outcome(
                            m,
                            *final(st),
                            r,
                            b,
                            bytes@,
                            logical,
                            container_digest@,
                            depth,
                            parent_index,
                        )
                } else if kind == MemberKind::Directory {
                    &&& r == Ok::<bool, DecompositionError>(true)
                    &&& final(st).inventory@.len() == old(st).inventory@.len() + 1
                    &&& plain_entry_at(
                        *final(st),
                        old(st).inventory@.len() as int,
                        logical,
                        kind,
                        container_digest@,
                        depth,
                    )
                    &&& final(st).recovered@ == old(st).recovered@
                } else {
                    &&& r == Ok::<bool, DecompositionError>(false)
                    &&& final(st).inventory@.len() == old(st).inventory@.len() + 1
                    &&& plain_entry_at(
                        *final(st),
                        old(st).inventory@.len() as int,
                        logical,
                        kind,
                        container_digest@,
                        depth,
                    )
                    &&& final(st).recovered@ == old(st).recovered@
                    &&& recorded(*final(st), "rejected "@ + member_kind_token(kind) + " entry: "@ + logical)
                }
            },
        },
    decreases b.max_depth - depth, 1int,
{
    let ghost st0 = *st;
    let local = match canonical_member_path(path.as_str(), b.max_path_chars) {
        None => {
            let mut reason = owned("rejected archive path: ");
            reason.append(path.as_str());
            mark_incomplete(st, DecompositionOutcome::Failed, reason, Ghost(b));
            return Ok(false);
        },
        Some(l) => l,
    };
    let logical = join_path(prefix.as_str(), local.as_str());
    if contains_text(&st.seen, &logical) {
        let mut reason = owned("duplicate canonical path: ");
        reason.append(logical.as_str());
        mark_incomplete(st, DecompositionOutcome::Failed, reason, Ghost(b));
        return Ok(false);
    }
    assert forall|i: int| 0 <= i < st.inventory@.len() implies (#[trigger] st.inventory@[i]).logical_path@ != logical@ by {
        assert(string_views(st.seen@).contains(st.inventory@[i].logical_path@));
    }
    let ghost seen0 = string_views(st.seen@);
    push_string(&mut st.seen, logical.clone());
    assert(string_views(st.seen@).contains(logical@)) by {
        assert(string_views(st.seen@).last() == logical@);
    }
    assert(st.wf(b)) by {
        assert forall|i: int| 0 <= i < st.inventory@.len() implies string_views(st.seen@).contains(
            (#[trigger] st.inventory@[i]).logical_path@,
        ) by {
            let p = st.inventory@[i].logical_path@;
            assert(seen0.contains(p));
            let w = choose|w: int| 0 <= w < seen0.len() && seen0[w] == p;
            assert(string_views(st.seen@)[w] == p);
        }
    }
    let entry_index = st.inventory.len();
    let ghost st1 = *st;
    let ghost lv = logical@;
    proof {
        lemma_grows_refl(st0);
        lemma_prefix_push(seen0, logical@);
        assert(grows(st0, st1));
    }
    match kind {
        MemberKind::Regular => {
            let r = consume_regular_member(st, backend, b, bytes, &logical, container_digest, depth, parent_index, entry_index);
            proof {
                lemma_grows_trans(st0, st1, *st);
            }
            r
        },
        MemberKind::Directory => {
            push_entry(st, b, InventoryEntry {
                logical_path: logical,
                kind: MemberKind::Directory,
                depth,
                container_sha256: container_digest.clone(),
                member_sha256: None,
                byte_size: 0,
            });
            proof {
                lemma_grows_trans(st0, st1, *st);
            }
            assert(plain_entry_at(*st, st0.inventory@.len() as int, lv, kind, container_digest@, depth));
            Ok(true)
        },
        _ => {
            let mut reason = owned("rejected ");
            reason.append(kind.as_str());
            reason.append(" entry: ");
            reason.append(logical.as_str());
            push_entry(st, b, InventoryEntry {
                logical_path: logical,
                kind,
                depth,
                container_sha256: container_digest.clone(),
                member_sha256: None,
                byte_size: 0,
            });
            let ghost st2 = *st;
            assert(plain_entry_at(st2, st0.inventory@.len() as int, lv, kind, container_digest@, depth));
            mark_incomplete(st, DecompositionOutcome::Failed, reason, Ghost(b));
            proof {
                lemma_grows_trans(st0, st1, st2);
                lemma_grows_trans(st0, st2, *st);
            }
            assert(plain_entry_at(*st, st0.inventory@.len() as int, lv, kind, container_digest@, depth));
            Ok(false)
        },
    }
}

proof fn lemma_prefix_index<T>(a: Seq<T>, b: Seq<T>, k: int)
    requires
        a.is_prefix_of(b),
        0 <= k < a.len(),
    ensures
        b[k] == a[k],
{
    assert(b.subrange(0, a.len() as int)[k] == b[k]);
}

fn push_entry(st: &mut PlanState, b: DecompositionBudget, e: InventoryEntry)
    requires
        old(st).wf(b),
        old(st).inventory@.len() < b.max_members,
        e.depth <= b.max_depth,
        string_views(old(st).seen@).contains(e.logical_path@),
        forall|i: int| 0 <= i < old(st).inventory@.len() ==> (#[trigger] old(st).inventory@[i]).logical_path@
            != e.logical_path@,
    ensures
        final(st).wf(b),
        final(st).inventory@ == old(st).inventory@.push(e),
        final(st).recovered@ == old(st).recovered@,
        final(st).processed_bytes == old(st).processed_bytes,
        final(st).seen@ == old(st).seen@,
        grows(*old(st), *final(st)),
        final(st).outcome == old(st).outcome,
        final(st).unknown_gaps@ == old(st).unknown_gaps@,
        final(st).limitations@ == old(st).limitations@,
{
    proof {
        lemma_grows_refl(*st);
        lemma_prefix_push(st.inventory@, e);
    }
    let ghost inv0 = st.inventory@;
    st.inventory.push(e);
    assert(st.wf(b)) by {
        let inv = st.inventory@;
        assert forall|k: int| 0 <= k < st.recovered@.len() implies recovered_ok(inv, #[trigger] st.recovered@[k], b) by {
            assert(recovered_ok(inv0, st.recovered@[k], b));
            assert(inv[st.recovered@[k].inventory_index as int] == inv0[st.recovered@[k].inventory_index as int]);
        }
        assert forall|i: int, j: int| 0 <= i < j < inv.len() implies (#[trigger] inv[i]).logical_path@ != (
        #[trigger] inv[j]).logical_path@ by {
            if j < inv0.len() {
                assert(inv[i] == inv0[i] && inv[j] == inv0[j]);
            } else {
                assert(inv[i] == inv0[i]);
            }
        }
        assert forall|i: int| 0 <= i < inv.len() implies string_views(st.seen@).contains(
            (#[trigger] inv[i]).logical_path@,
        ) by {
            if i < inv0.len() {
                assert(inv[i] == inv0[i]);
            }
        }
    }
}

fn push_recovered(st: &mut PlanState, b: DecompositionBudget, r: RecoveredMember)
    requires
        old(st).wf(b),
        recovered_ok(old(st).inventory@, r, b),
    ensures
        final(st).wf(b),
        final(st).inventory@ == old(st).inventory@,
        final(st).recovered@ == old(st).recovered@.push(r),
        final(st).processed_bytes == old(st).processed_bytes,
        final(st).seen@ == old(st).seen@,
        final(st).outcome == old(st).outcome,
        final(st).unknown_gaps@ == old(st).unknown_gaps@,
        final(st).limitations@ == old(st).limitations@,
        grows(*old(st), *final(st)),
{
    proof {
        lemma_grows_refl(*st);
        lemma_prefix_push(st.recovered@, r);
    }
    st.recovered.push(r);
}

fn consume_regular_member<B: ArchiveBackend>(
    st: &mut PlanState,
    backend: &B,
    b: DecompositionBudget,
    bytes: &Vec<u8>,
    logical: &String,
    container_digest: &String,
    depth: u32,
    parent_index: Option<usize>,
    entry_index: usize,
) -> (r: Result<bool, DecompositionError>)
    requires
        old(st).wf(b),
        depth <= b.max_depth,
        old(st).inventory@.len() < b.max_members,
        entry_index == old(st).inventory@.len(),
        string_views(old(st).seen@).contains(logical@),
        forall|i: int| 0 <= i < old(st).inventory@.len() ==> (#[trigger] old(st).inventory@[i]).logical_path@
            != logical@,
    ensures
        r matches Err(e) ==> backend_error(backend, e),
        final(st).wf(b),
        grows(*old(st), *final(st)),
        regular_outcome(*old(st), *final(st), r, b, bytes@, logical@, container_digest@, depth, parent_index),
    decreases b.max_depth - depth, 0int,
{
    let ghost st0 = *st;
    proof {
        lemma_grows_refl(st0);
    }
    let size = bytes.len() as u64;
    if size > b.max_member_bytes {
        let mut reason = owned("member exceeds per-member budget: ");
        reason.append(logical.as_str());
        mark_incomplete(st, DecompositionOutcome::BudgetExhausted, reason, Ghost(b));
        return Ok(false);
    }
    if size > u64::MAX - st.processed_bytes {
        return Err(DecompositionError::AccountingOverflow);
    }
    let next_total = st.processed_bytes + size;
    if next_total > b.max_expanded_bytes {
        let mut reason = owned("expanded-byte budget exhausted at: ");
        reason.append(logical.as_str());
        mark_incomplete(st, DecompositionOutcome::BudgetExhausted, reason, Ghost(b));
        return Ok(false);
    }
    let digest = sha256_hex(bytes.as_slice());
    push_entry(
        st,
        b,
        InventoryEntry {
            logical_path: logical.clone(),
            kind: MemberKind::Regular,
            depth,
            container_sha256: container_digest.clone(),
            member_sha256: Some(digest.clone()),
            byte_size: size,
        },
    );
    let ghost sa = *st;
    push_recovered(
        st,
        b,
        RecoveredMember {
            inventory_index: entry_index,
            parent_inventory_index: parent_index,
            logical_path: logical.clone(),
            bytes: vstd::slice::slice_to_vec(bytes.as_slice()),
            container_sha256: container_digest.clone(),
            member_sha256: digest.clone(),
            depth,
        },
    );
    let ghost sb = *st;
    st.processed_bytes = next_total;
    assert(st.wf(b));
    let ghost st2 = *st;
    proof {
        lemma_grows_trans(st0, sa, sb);
        assert(grows(sb, st2));
        lemma_grows_trans(st0, sb, st2);
    }
    assert(regular_entry_at(st2, st0.inventory@.len() as int, logical@, container_digest@, depth, bytes@));
    assert(recovered_at(st2, st0.recovered@.len() as int, st0.inventory@.len() as int, parent_index, logical@, container_digest@, depth, bytes@));
    if depth < b.max_depth {
        let r = walk_container(st, backend, b, bytes.as_slice(), &digest, depth + 1, Some(entry_index), logical);
        proof {
            lemma_grows_trans(st0, st2, *st);
            lemma_prefix_index(st2.inventory@, st.inventory@, st0.inventory@.len() as int);
            lemma_prefix_index(st2.recovered@, st.recovered@, st0.recovered@.len() as int);
        }
        r?;
    }
    Ok(true)
}

pub(crate) fn push_le(output: &mut Vec<u8>, value: u64, n: usize)
    ensures
        final(output)@ == old(output)@ + crate::bytes::le_bytes(value as int, n as nat),
    decreases n,
{
    if n == 0 {
        assert(final(output)@ =~= old(output)@ + crate::bytes::le_bytes(value as int, 0));
    } else {
        let ghost start = output@;
        output.push((value % 256) as u8);
        push_le(output, value / 256, n - 1);
        assert(final(output)@ =~= start + crate::bytes::le_bytes(value as int, n as nat));
    }
}

/// Byte width of `usize` on this platform.
pub open spec fn usize_width() -> nat {
    if usize::BITS == 64 {
        8
    } else {
        4
    }
}

/// The bytes a decomposition identity digests: a domain tag, the source revision, the requested
/// level and the admitted budget.
pub open spec fn identity_bytes(spec: DecompositionSpec) -> Seq<u8> {
    let key_bytes = |s: Seq<char>| vstd::utf8::encode_utf8(s);
    key_bytes("ptah.a12.decomposition.v0.1.0"@) + seq![0u8] + key_bytes(spec.source_revision_ref.entity_id@) + seq![0u8]
        + key_bytes(spec.source_revision_ref.entity_kind@) + seq![0u8] + key_bytes(spec.requested_level@) + seq![0u8]
        + crate::bytes::le_bytes(spec.budget.max_depth as int, 4) + crate::bytes::le_bytes(
        spec.budget.max_members as int,
        8,
    ) + crate::bytes::le_bytes(spec.budget.max_expanded_bytes as int, 8) + crate::bytes::le_bytes(
        spec.budget.max_member_bytes as int,
        8,
    ) + crate::bytes::le_bytes(spec.budget.max_path_chars as int, usize_width())
}

/// The stable identity: `sha256:` and the hexadecimal digest of the identity bytes.
pub open spec fn identity_spec(spec: DecompositionSpec) -> Seq<char> {
    "sha256:"@ + sha256_hex_of(identity_bytes(spec))
}

/// The identity depends only on the source revision, the requested level and the budget: the
/// workspace, the authority and the backend never change it.
pub proof fn lemma_identity_stable(s1: DecompositionSpec, s2: DecompositionSpec)
    requires
        s1.source_revision_ref@ == s2.source_revision_ref@,
        s1.requested_level@ == s2.requested_level@,
        s1.budget == s2.budget,
    ensures
        identity_spec(s1) == identity_spec(s2),
{
    assert(identity_bytes(s1) =~= identity_bytes(s2));
}

pub(crate) fn push_text_bytes(output: &mut Vec<u8>, s: &str)
    ensures
        final(output)@ == old(output)@ + vstd::utf8::encode_utf8(s@),
{
    let b = s.as_bytes();
    let ghost start = output@;
    let mut i: usize = 0;
    while i < b.len()
        invariant
            i <= b@.len(),
            output@ == start + b@.take(i as int),
        decreases b.len() - i,
    {
        output.push(b[i]);
        assert(b@.take(i as int + 1) =~= b@.take(i as int).push(b@[i as int]));
        i = i + 1;
    }
    assert(b@.take(b@.len() as int) =~= b@);
}

/// The stable decomposition identity; the replaceable backend is deliberately excluded so that
/// replacing a backend does not change product identity.
pub fn stable_decomposition_identity(spec: &DecompositionSpec) -> (r: String)
    ensures
        r@ == identity_spec(*spec),
        r@.len() == 71,
{
    let mut bytes: Vec<u8> = Vec::new();
    push_text_bytes(&mut bytes, "ptah.a12.decomposition.v0.1.0");
    bytes.push(0u8);
    push_text_bytes(&mut bytes, spec.source_revision_ref.entity_id.as_str());
    bytes.push(0u8);
    push_text_bytes(&mut bytes, spec.source_revision_ref.entity_kind.as_str());
    bytes.push(0u8);
    push_text_bytes(&mut bytes, spec.requested_level.as_str());
    bytes.push(0u8);
    push_le(&mut bytes, spec.budget.max_depth as u64, 4);
    push_le(&mut bytes, spec.budget.max_members, 8);
    push_le(&mut bytes, spec.budget.max_expanded_bytes, 8);
    push_le(&mut bytes, spec.budget.max_member_bytes, 8);
    if usize::BITS == 64 {
        push_le(&mut bytes, spec.budget.max_path_chars as u64, 8);
    } else {
        push_le(&mut bytes, spec.budget.max_path_chars as u64, 4);
    }
    assert(bytes@ =~= identity_bytes(*spec));
    let mut s = owned("sha256:");
    let digest = sha256_hex(bytes.as_slice());
    s.append(digest.as_str());
    proof {
        reveal_strlit("sha256:");
    }
    s
}

/// Level achieved by a plan: nothing inventoried, an inventory without recovered bytes, or
/// recovered members.
pub open spec fn achieved_level_spec(inventoried: nat, recovered: nat) -> Seq<char> {
    if inventoried == 0 {
        "L1_detected"@
    } else if recovered == 0 {
        "L2_inventoried"@
    } else {
        "L3_decomposed"@
    }
}

/// Build a deterministic backend-neutral plan without mutating canonical state.
///
/// An invalid budget and a source that is not an object revision are rejected exactly. A plan
/// keeps `plan_wf`: bounded members, bytes and depth; distinct logical paths; recovered members
/// bound to their regular inventory entries by size and digest; no `Complete` outcome beside a
/// recorded gap.
pub fn decompose<B: ArchiveBackend>(source_bytes: &[u8], spec: &DecompositionSpec, backend: &B) -> (r: Result<
    DecompositionPlan,
    DecompositionError,
>)
    ensures
        budget_fault(spec.budget) is Some ==> (r matches Err(DecompositionError::InvalidBudget(f)) && budget_fault(
            spec.budget,
        ) == Some(f@)),
        r matches Err(e) ==> e is InvalidBudget && budget_fault(spec.budget) is Some || e is SourceMismatch
            && budget_fault(spec.budget) is None && spec.source_revision_ref.entity_kind@ != "object.revision"@
            || backend_error(backend, e),
        r matches Ok(p) ==> backend.identity_post(p.backend),
        budget_fault(spec.budget) is None && spec.source_revision_ref.entity_kind@ != "object.revision"@ ==> (r matches Err(
            DecompositionError::SourceMismatch,
        )),
        r matches Ok(p) ==> {
            &&& budget_fault(spec.budget) is None
            &&& spec.source_revision_ref.entity_kind@ == "object.revision"@
            &&& p.decomposition_identity@ == identity_spec(*spec)
            &&& p.source_revision_ref@ == spec.source_revision_ref@
            &&& p.requested_level@ == spec.requested_level@
            &&& p.budget_request == spec.budget
            &&& p.processed_members == p.inventory@.len()
            &&& p.achieved_level@ == achieved_level_spec(p.inventory@.len(), p.recovered_members@.len())
            &&& plan_wf(
                p.inventory@,
                p.recovered_members@,
                spec.budget,
                p.processed_bytes,
                p.outcome,
                string_views(p.unknown_gaps@),
            )
        },
{
    validate_budget(spec.budget)?;
    if !spec.source_revision_ref.has_kind("object.revision") {
        return Err(DecompositionError::SourceMismatch);
    }
    let identity = stable_decomposition_identity(spec);
    let backend_identity = backend.identity();
    let mut st = PlanState {
        inventory: Vec::new(),
        recovered: Vec::new(),
        seen: Vec::new(),
        processed_bytes: 0,
        warnings: Vec::new(),
        limitations: Vec::new(),
        unknown_gaps: Vec::new(),
        outcome: DecompositionOutcome::Complete,
    };
    assert(string_views(st.unknown_gaps@) =~= Seq::<Seq<char>>::empty());
    assert(st.wf(spec.budget));
    let root_digest = sha256_hex(source_bytes);
    let empty = String::new();
    walk_container(&mut st, backend, spec.budget, source_bytes, &root_digest, 0, None, &empty)?;
    let processed_members = st.inventory.len() as u64;
    let achieved = if st.inventory.len() == 0 {
        owned("L1_detected")
    } else if st.recovered.len() == 0 {
        owned("L2_inventoried")
    } else {
        owned("L3_decomposed")
    };
    let PlanState { inventory, recovered, seen: _, processed_bytes, warnings, limitations, unknown_gaps, outcome } = st;
    Ok(
        DecompositionPlan {
            decomposition_identity: identity,
            source_revision_ref: spec.source_revision_ref.duplicate(),
            backend: backend_identity,
            inventory,
            recovered_members: recovered,
            outcome,
            requested_level: spec.requested_level.clone(),
            achieved_level: achieved,
            budget_request: spec.budget,
            processed_members,
            processed_bytes,
            unknown_gaps,
            warnings,
            limitations,
        },
    )
}

} // verus!
