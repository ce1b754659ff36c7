//! Shared vocabulary of static Unisoc PAC and Qualcomm bundle inspection: limits, context,
//! levels, byte ranges, failures and the bounded-string and canonical-path rules.
use vstd::prelude::*;
use crate::archive_path::{drive_qualified, split_slash};
use crate::digest::sha256_hex_of;
use crate::identity::EntityRef;
use crate::mediatek::MediatekLimits;
use crate::mediatek_scatter::{bundle_path, piece_ok};
use crate::partition_map::string_views;
use crate::text_ops::chars_of;

verus! {

/// Bounded resource limits for one static package inspection.
#[derive(Debug, Clone, Copy, PartialEq, Eq, Structural)]
pub struct C06Limits {
    /// Maximum immutable primary-source bytes.
    pub max_source_bytes: u64,
    /// Maximum package or bundle entries.
    pub max_entries: usize,
    /// Maximum aggregate recovered sibling bytes.
    pub max_recovered_bytes: u64,
    /// Maximum retained string or path bytes.
    pub max_string_bytes: usize,
    /// Maximum normalized Firehose plan operations.
    pub max_operations: usize,
    /// Maximum exact child bytes materialized in one request.
    pub max_materialized_bytes: u64,
}

impl Default for C06Limits {
    fn default() -> (r: Self)
        ensures
            r.max_source_bytes == 16 * 1024 * 1024 * 1024,
            r.max_entries == 131_072,
            r.max_recovered_bytes == 32 * 1024 * 1024 * 1024,
            r.max_string_bytes == 8192,
            r.max_operations == 131_072,
            r.max_materialized_bytes == 4 * 1024 * 1024 * 1024,
    {
        C06Limits {
            max_source_bytes: 16 * 1024 * 1024 * 1024,
            max_entries: 131_072,
            max_recovered_bytes: 32 * 1024 * 1024 * 1024,
            max_string_bytes: 8192,
            max_operations: 131_072,
            max_materialized_bytes: 4 * 1024 * 1024 * 1024,
        }
    }
}

/// Every limit is non-zero.
pub open spec fn c06_limits_valid(l: C06Limits) -> bool {
    l.max_source_bytes != 0 && l.max_entries != 0 && l.max_recovered_bytes != 0 && l.max_string_bytes != 0
        && l.max_operations != 0 && l.max_materialized_bytes != 0
}

/// Reject a zero limit.
pub fn validate_c06_limits(limits: C06Limits) -> (r: Result<(), C06Error>)
    ensures
        r is Ok <==> c06_limits_valid(limits),
        r matches Err(e) ==> e is InvalidLimits,
{
    if limits.max_source_bytes == 0 || limits.max_entries == 0 || limits.max_recovered_bytes == 0
        || limits.max_string_bytes == 0 || limits.max_operations == 0 || limits.max_materialized_bytes == 0 {
        return Err(C06Error::InvalidLimits);
    }
    Ok(())
}

/// Exact immutable source context.
#[derive(Debug)]
pub struct C06Context {
    /// Workspace owning source and derived plans.
    pub workspace_ref: EntityRef,
    /// Authority for canonical plans.
    pub authority_ref: EntityRef,
    /// Exact immutable package or index object revision.
    pub source_revision_ref: EntityRef,
}

/// The failure of context validation, if any.
pub open spec fn c06_context_fault(c: C06Context) -> Option<C06Error> {
    if c.workspace_ref.entity_kind@ != "core.workspace"@ {
        Some(C06Error::InvalidWorkspaceRef)
    } else if c.source_revision_ref.entity_kind@ != "object.revision"@ {
        Some(C06Error::InvalidSourceRevision)
    } else {
        None
    }
}

/// Reject a context that does not name a workspace and an exact object revision.
pub fn validate_c06_context(context: &C06Context) -> (r: Result<(), C06Error>)
    ensures
        r is Ok <==> c06_context_fault(*context) is None,
        r matches Err(e) ==> c06_context_fault(*context) == Some(e),
{
    if !context.workspace_ref.has_kind("core.workspace") {
        return Err(C06Error::InvalidWorkspaceRef);
    }
    if !context.source_revision_ref.has_kind("object.revision") {
        return Err(C06Error::InvalidSourceRevision);
    }
    Ok(())
}

/// Structural truth status of one report.
#[derive(Debug, Clone, Copy, PartialEq, Eq, Structural)]
pub enum C06Assessment {
    /// All supplied supported semantics were validated.
    Complete,
    /// Exact supported semantics exist but explicit limitations remain.
    Partial,
    /// A trustworthy static projection could not be established.
    Inconclusive,
}

/// Static package evidence grants no device mutation or loader-execution authority.
#[derive(Debug, Clone, Copy, PartialEq, Eq, Structural)]
pub enum C06TrustAssessment {
    /// Device-side execution or write compatibility is not established.
    NotEstablished,
}

/// Mechanically earned static proof level, weakest first.
#[derive(Debug, Clone, Copy, PartialEq, Eq, PartialOrd, Ord, Structural)]
pub enum C06StaticProofLevel {
    /// Exact source identity and a bounded inventory exist.
    InventoryOnly,
    /// Package or bundle structure and ranges were validated.
    StructureChecked,
    /// Referenced component bytes are exact and digest-bound.
    ComponentsLinked,
    /// Static XML and loader relationships resolve to exact components.
    PlanLinked,
    /// Compared retained component identities and digests are exact.
    ComponentExact,
    /// Primary source bytes and retained component identities are exact.
    ByteExact,
}

/// Static comparison strength shared by both families.
#[derive(Debug, Clone, Copy, PartialEq, Eq, PartialOrd, Ord, Structural)]
pub enum C06ComparisonLevel {
    /// Supported structural projections differ.
    Different,
    /// Structure matches but exact retained component bytes differ.
    StructureOnly,
    /// Retained component identities and digests match while primary source bytes differ.
    ComponentExact,
    /// Primary source bytes and retained component identities are exact.
    ByteExact,
}

/// One inclusive-start, exclusive-end byte range.
#[derive(Debug, Clone, Copy, PartialEq, Eq, PartialOrd, Ord, Structural)]
pub struct C06ByteRange {
    /// Inclusive byte start.
    pub start: u64,
    /// Exclusive byte end.
    pub end_exclusive: u64,
}

/// Static package inspection failures.
#[derive(Debug, Clone, PartialEq, Eq)]
pub enum C06Error {
    /// Workspace reference is not canonical.
    InvalidWorkspaceRef,
    /// Source must bind an exact object revision.
    InvalidSourceRevision,
    /// One configured resource limit is zero.
    InvalidLimits,
    /// Primary source exceeds configured bounds.
    SourceTooLarge,
    /// Package or bundle entry count exceeds configured bounds.
    TooManyEntries,
    /// Aggregate recovered sibling bytes exceed configured bounds.
    TooManyRecoveredBytes,
    /// Plan operation count exceeds configured bounds.
    TooManyOperations,
    /// String or path is invalid or exceeds configured bounds.
    InvalidString,
    /// Path is unsafe or non-canonical.
    InvalidPath,
    /// Duplicate component identity or path.
    DuplicateEntry,
    /// Provider-declared digest is malformed or mismatched.
    DigestMismatch,
    /// Numeric range arithmetic overflowed.
    RangeOverflow,
    /// PAC entry points outside the immutable source.
    RangeOutsideSource,
    /// PAC entry ranges overlap.
    OverlappingRanges,
    /// Unisoc mechanical provider failed.
    UnisocProvider(String),
    /// Qualcomm mechanical provider failed.
    QualcommProvider(String),
    /// XML plan source is absent.
    PlanSourceNotFound,
    /// XML plan source has the wrong static component kind.
    InvalidPlanSourceKind,
    /// Sector size is zero.
    InvalidSectorSize,
    /// Patch byte offset or range is invalid.
    InvalidPatchRange,
    /// Programmer component is absent.
    ProgrammerNotFound,
    /// Programmer component has an invalid static kind.
    InvalidProgrammerKind,
    /// Numeric accounting overflowed.
    AccountingOverflow,
    /// Report, source or context binding mismatch.
    SourceBindingMismatch,
    /// A retained component no longer matches its recorded digest.
    ReportIntegrityMismatch,
    /// Requested exact component does not exist.
    ChildNotFound,
    /// Materialization exceeds configured bounds.
    MaterializationTooLarge,
}

/// A bounded string: non-empty, at most `max_string_bytes` UTF-8 bytes, without NUL.
pub open spec fn text_ok(s: Seq<char>, limits: C06Limits) -> bool {
    s.len() > 0 && vstd::utf8::encode_utf8(s).len() <= limits.max_string_bytes && !s.contains('\0')
}

/// An optional bounded string.
pub open spec fn optional_text_ok(o: Option<Seq<char>>, limits: C06Limits) -> bool {
    match o {
        Some(s) => text_ok(s, limits),
        None => true,
    }
}

/// Every limitation is a bounded string.
pub open spec fn limitations_text_ok(values: Seq<Seq<char>>, limits: C06Limits) -> bool {
    forall|i: int| 0 <= i < values.len() ==> text_ok(#[trigger] values[i], limits)
}

/// A canonical relative path shape: no backslash, no drive prefix, and `/`-separated pieces
/// that are all non-empty, `.`-free and `..`-free.
pub open spec fn path_shape_ok(s: Seq<char>) -> bool {
    !s.contains('\\') && !drive_qualified(s) && forall|k: int|
        0 <= k < split_slash(s).len() ==> piece_ok(#[trigger] split_slash(s)[k])
}

/// The failure of path validation, if any.
pub open spec fn path_fault(s: Seq<char>, limits: C06Limits) -> Option<C06Error> {
    if !text_ok(s, limits) {
        Some(C06Error::InvalidString)
    } else if !path_shape_ok(s) {
        Some(C06Error::InvalidPath)
    } else {
        None
    }
}

/// Validate bounded text.
pub fn check_text06(value: &str, limits: C06Limits) -> (r: Result<(), C06Error>)
    ensures
        r is Ok <==> text_ok(value@, limits),
        r matches Err(e) ==> e is InvalidString,
{
    let ml = MediatekLimits {
        max_source_bytes: 1,
        max_partitions: 1,
        max_bundle_entries: 1,
        max_recovered_bytes: 1,
        max_string_bytes: limits.max_string_bytes,
        max_lines: 1,
        max_evidence_partitions: 1,
        max_materialized_bytes: 1,
    };
    match crate::mediatek_bundle::check_text(value, ml) {
        Ok(()) => Ok(()),
        Err(_) => Err(C06Error::InvalidString),
    }
}

/// Validate optional bounded text.
pub fn check_optional06(value: &Option<String>, limits: C06Limits) -> (r: Result<(), C06Error>)
    ensures
        r is Ok <==> optional_text_ok(crate::mediatek::opt_view(*value), limits),
        r matches Err(e) ==> e is InvalidString,
{
    match value {
        Some(s) => check_text06(s.as_str(), limits),
        None => Ok(()),
    }
}

/// Validate every limitation.
pub fn check_limitations06(values: &Vec<String>, limits: C06Limits) -> (r: Result<(), C06Error>)
    ensures
        r is Ok <==> limitations_text_ok(string_views(values@), limits),
        r matches Err(e) ==> e is InvalidString,
{
    let ghost sv = string_views(values@);
    let mut i: usize = 0;
    while i < values.len()
        invariant
            i <= values@.len(),
            sv == string_views(values@),
            forall|j: int| 0 <= j < i ==> text_ok(#[trigger] sv[j], limits),
        decreases values.len() - i,
    {
        assert(sv[i as int] == values@[i as int]@);
        if check_text06(values[i].as_str(), limits).is_err() {
            return Err(C06Error::InvalidString);
        }
        i = i + 1;
    }
    Ok(())
}

/// Validate a canonical relative path.
pub fn check_path06(value: &str, limits: C06Limits) -> (r: Result<(), C06Error>)
    ensures
        match path_fault(value@, limits) {
            Some(e) => r == Err::<(), C06Error>(e),
            None => r is Ok,
        },
{
    let ml = MediatekLimits {
        max_source_bytes: 1,
        max_partitions: 1,
        max_bundle_entries: 1,
        max_recovered_bytes: 1,
        max_string_bytes: limits.max_string_bytes,
        max_lines: 1,
        max_evidence_partitions: 1,
        max_materialized_bytes: 1,
    };
    let cs = chars_of(value);
    match bundle_path(&cs, ml) {
        Ok(_) => Ok(()),
        Err(crate::mediatek::C05Error::InvalidString) => Err(C06Error::InvalidString),
        Err(_) => Err(C06Error::InvalidPath),
    }
}

/// Whether `source` is the exact source a report was made of, under `context`.
pub open spec fn source_bound(
    source: Seq<u8>,
    size: u64,
    sha: Seq<char>,
    revision: (Seq<char>, Seq<char>),
    context: C06Context,
) -> bool {
    revision == context.source_revision_ref@ && size == source.len() && sha == sha256_hex_of(source)
}

} // verus!
