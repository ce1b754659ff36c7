//! Archive decomposition vocabulary: member kinds, parser reports, budgets, inventory entries and
//! outcomes.
use vstd::prelude::*;

verus! {

/// Archive member kind reported mechanically by a parser backend.
#[derive(Debug, Clone, Copy, PartialEq, Eq, Structural)]
pub enum MemberKind {
    /// Byte-backed regular file.
    Regular,
    /// Directory structure entry; inventory only, with no child bytes.
    Directory,
    /// Symbolic link.
    Symlink,
    /// Hard link.
    Hardlink,
    /// Device, FIFO, socket or another non-regular special entry.
    Special,
}

/// Stable lowercase token of a member kind.
pub open spec fn member_kind_token(k: MemberKind) -> Seq<char> {
    match k {
        MemberKind::Regular => "regular"@,
        MemberKind::Directory => "directory"@,
        MemberKind::Symlink => "symlink"@,
        MemberKind::Hardlink => "hardlink"@,
        MemberKind::Special => "special"@,
    }
}

impl MemberKind {
    /// Stable lowercase token.
    pub fn as_str(self) -> (r: &'static str)
        ensures
            r@ == member_kind_token(self),
    {
        match self {
            MemberKind::Regular => "regular",
            MemberKind::Directory => "directory",
            MemberKind::Symlink => "symlink",
            MemberKind::Hardlink => "hardlink",
            MemberKind::Special => "special",
        }
    }
}

/// One parser-reported member; its bytes carry no authority until decomposition policy accepts
/// its path, kind and budget.
#[derive(Debug)]
pub struct ParsedMember {
    /// Backend-reported logical member path.
    pub path: String,
    /// Entry kind.
    pub kind: MemberKind,
    /// Exact stored or decoded member bytes for regular entries.
    pub bytes: Vec<u8>,
}

/// Terminal parser condition returned together with any valid prefix members.
#[derive(Debug, Clone, Copy, PartialEq, Eq, Structural)]
pub enum ParseTerminal {
    /// Parser reached the end of the archive without a known gap.
    Complete,
    /// Archive is encrypted and no authorized credential was available.
    LockedEncrypted,
    /// Authorized credential is required.
    CredentialRequired,
    /// Supplied credential was rejected.
    WrongCredential,
    /// Encryption scheme is unsupported.
    UnsupportedEncryption,
    /// Parser identified malformed archive structure.
    Malformed,
    /// Source ended before the parser could complete.
    Truncated,
    /// Parser returned a bounded error.
    ParserError,
    /// Parser crashed or was observed to terminate unexpectedly.
    ParserCrash,
    /// Parser exceeded the admitted time budget.
    Timeout,
    /// Parser exceeded a decomposition resource budget.
    BudgetExhausted,
    /// Source is not a supported archive format.
    UnsupportedFormat,
    /// Source is recognized as opaque and non-decomposable.
    Opaque,
    /// Decomposition was cancelled.
    Cancelled,
    /// Other bounded failure.
    Failed,
}

/// Name of a parser terminal condition, in the schema's snake-case spelling.
pub open spec fn terminal_token(t: ParseTerminal) -> Seq<char> {
    match t {
        ParseTerminal::Complete => "complete"@,
        ParseTerminal::LockedEncrypted => "locked_encrypted"@,
        ParseTerminal::CredentialRequired => "credential_required"@,
        ParseTerminal::WrongCredential => "wrong_credential"@,
        ParseTerminal::UnsupportedEncryption => "unsupported_encryption"@,
        ParseTerminal::Malformed => "malformed"@,
        ParseTerminal::Truncated => "truncated"@,
        ParseTerminal::ParserError => "parser_error"@,
        ParseTerminal::ParserCrash => "parser_crash"@,
        ParseTerminal::Timeout => "timeout"@,
        ParseTerminal::BudgetExhausted => "budget_exhausted"@,
        ParseTerminal::UnsupportedFormat => "unsupported_format"@,
        ParseTerminal::Opaque => "opaque"@,
        ParseTerminal::Cancelled => "cancelled"@,
        ParseTerminal::Failed => "failed"@,
    }
}

/// Mechanical parser report; a non-complete terminal may still carry verified prefix members.
#[derive(Debug)]
pub struct ParseReport {
    /// Identified format name, when known.
    pub format: Option<String>,
    /// Valid prefix members reported before the terminal condition.
    pub members: Vec<ParsedMember>,
    /// Terminal parser condition.
    pub terminal: ParseTerminal,
    /// Bounded parser warnings.
    pub warnings: Vec<String>,
    /// Bounded parser limitations.
    pub limitations: Vec<String>,
}

/// Admitted recursive archive budgets.
#[derive(Debug, Clone, Copy, PartialEq, Eq, Structural)]
pub struct DecompositionBudget {
    /// Maximum nested archive depth, with the source archive at depth zero.
    pub max_depth: u32,
    /// Maximum inventory members across the complete recursive run.
    pub max_members: u64,
    /// Maximum cumulative decoded regular-member bytes across all levels.
    pub max_expanded_bytes: u64,
    /// Maximum decoded bytes for one regular member.
    pub max_member_bytes: u64,
    /// Maximum Unicode scalar count for one canonical logical path.
    pub max_path_chars: usize,
}

impl Default for DecompositionBudget {
    fn default() -> (r: Self)
        ensures
            r.max_depth == 8,
            r.max_members == 100_000,
            r.max_expanded_bytes == 2 * 1024 * 1024 * 1024,
            r.max_member_bytes == 512 * 1024 * 1024,
            r.max_path_chars == 8192,
    {
        DecompositionBudget {
            max_depth: 8,
            max_members: 100_000,
            max_expanded_bytes: 2 * 1024 * 1024 * 1024,
            max_member_bytes: 512 * 1024 * 1024,
            max_path_chars: 8192,
        }
    }
}

/// One deterministic inventory entry.
#[derive(Debug)]
pub struct InventoryEntry {
    /// Canonical slash-separated path inside the root source archive.
    pub logical_path: String,
    /// Entry kind.
    pub kind: MemberKind,
    /// Nesting depth of the immediate containing archive.
    pub depth: u32,
    /// SHA-256 of the immediate container bytes.
    pub container_sha256: String,
    /// SHA-256 of regular entry bytes, when byte-backed.
    pub member_sha256: Option<String>,
    /// Exact byte size for regular entries; zero for inventory-only entries.
    pub byte_size: u64,
}

/// Byte-backed member accepted by decomposition policy.
#[derive(Debug)]
pub struct RecoveredMember {
    /// Inventory index that identifies this member inside the plan.
    pub inventory_index: usize,
    /// Inventory index of the immediate containing member for nested archives.
    pub parent_inventory_index: Option<usize>,
    /// Canonical logical path.
    pub logical_path: String,
    /// Exact recovered bytes.
    pub bytes: Vec<u8>,
    /// SHA-256 of the immediate container bytes.
    pub container_sha256: String,
    /// SHA-256 of the recovered member bytes.
    pub member_sha256: String,
    /// Nesting depth.
    pub depth: u32,
}

/// Frozen decomposition outcome vocabulary.
#[derive(Debug, Clone, Copy, PartialEq, Eq, Structural)]
pub enum DecompositionOutcome {
    /// Complete requested decomposition with no unknown gap.
    Complete,
    /// Useful verified outputs exist but coverage is incomplete.
    Partial,
    /// Encrypted archive requires a credential.
    LockedEncrypted,
    /// Credential is required.
    CredentialRequired,
    /// Credential was rejected.
    WrongCredential,
    /// Encryption is unsupported.
    UnsupportedEncryption,
    /// Archive is malformed.
    Malformed,
    /// Archive is truncated.
    Truncated,
    /// Parser error.
    ParserError,
    /// Parser crash.
    ParserCrash,
    /// Timeout.
    Timeout,
    /// Budget exhausted.
    BudgetExhausted,
    /// Unsupported archive format.
    UnsupportedFormat,
    /// Opaque source.
    Opaque,
    /// Cancelled.
    Cancelled,
    /// Other failure.
    Failed,
}

/// Frozen schema token of an outcome.
pub open spec fn outcome_token(o: DecompositionOutcome) -> Seq<char> {
    match o {
        DecompositionOutcome::Complete => "complete"@,
        DecompositionOutcome::Partial => "partial"@,
        DecompositionOutcome::LockedEncrypted => "locked_encrypted"@,
        DecompositionOutcome::CredentialRequired => "credential_required"@,
        DecompositionOutcome::WrongCredential => "wrong_credential"@,
        DecompositionOutcome::UnsupportedEncryption => "unsupported_encryption"@,
        DecompositionOutcome::Malformed => "malformed"@,
        DecompositionOutcome::Truncated => "truncated"@,
        DecompositionOutcome::ParserError => "parser_error"@,
        DecompositionOutcome::ParserCrash => "parser_crash"@,
        DecompositionOutcome::Timeout => "timeout"@,
        DecompositionOutcome::BudgetExhausted => "budget_exhausted"@,
        DecompositionOutcome::UnsupportedFormat => "unsupported_format"@,
        DecompositionOutcome::Opaque => "opaque"@,
        DecompositionOutcome::Cancelled => "cancelled"@,
        DecompositionOutcome::Failed => "failed"@,
    }
}

impl DecompositionOutcome {
    /// Frozen schema token.
    pub fn as_str(self) -> (r: &'static str)
        ensures
            r@ == outcome_token(self),
    {
        match self {
            DecompositionOutcome::Complete => "complete",
            DecompositionOutcome::Partial => "partial",
            DecompositionOutcome::LockedEncrypted => "locked_encrypted",
            DecompositionOutcome::CredentialRequired => "credential_required",
            DecompositionOutcome::WrongCredential => "wrong_credential",
            DecompositionOutcome::UnsupportedEncryption => "unsupported_encryption",
            DecompositionOutcome::Malformed => "malformed",
            DecompositionOutcome::Truncated => "truncated",
            DecompositionOutcome::ParserError => "parser_error",
            DecompositionOutcome::ParserCrash => "parser_crash",
            DecompositionOutcome::Timeout => "timeout",
            DecompositionOutcome::BudgetExhausted => "budget_exhausted",
            DecompositionOutcome::UnsupportedFormat => "unsupported_format",
            DecompositionOutcome::Opaque => "opaque",
            DecompositionOutcome::Cancelled => "cancelled",
            DecompositionOutcome::Failed => "failed",
        }
    }

    /// Whether the outcome permits a complete coverage claim: only `Complete` does.
    pub fn is_complete(self) -> (r: bool)
        ensures
            r == (self == DecompositionOutcome::Complete),
    {
        match self {
            DecompositionOutcome::Complete => true,
            _ => false,
        }
    }
}

} // verus!
