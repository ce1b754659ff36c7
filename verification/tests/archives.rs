use ptah_archive_decomposition::archive_model::{
    DecompositionBudget, DecompositionOutcome, MemberKind, ParseReport, ParseTerminal, ParsedMember,
};
use ptah_archive_decomposition::archive_path::{canonical_member_path, join_path};
use ptah_archive_decomposition::archive_policy::{
    decompose, stable_decomposition_identity, validate_budget, ArchiveBackend, BackendIdentity, DecompositionError,
    DecompositionSpec,
};
use ptah_archive_decomposition::digest::sha256_hex;
use ptah_archive_decomposition::identity::EntityRef;

struct FakeBackend {
    generation: u64,
    root_terminal: ParseTerminal,
    root_members: Vec<(&'static str, MemberKind, &'static [u8])>,
}

impl ArchiveBackend for FakeBackend {
    fn identity(&self) -> BackendIdentity {
        BackendIdentity {
            provider_ref: EntityRef::new("provider-1", "core.provider"),
            provider_generation: self.generation,
            implementation: "fake".to_string(),
            implementation_version: "1".to_string(),
            source_sha256: "0".repeat(64),
            executable_sha256: "1".repeat(64),
        }
    }

    fn parse(&self, bytes: &[u8]) -> Result<ParseReport, DecompositionError> {
        let (terminal, members): (ParseTerminal, Vec<(&str, MemberKind, &[u8])>) = if bytes == b"ROOT" {
            (self.root_terminal, self.root_members.clone())
        } else if bytes == b"NESTED" {
            (ParseTerminal::Complete, vec![("inner.txt", MemberKind::Regular, b"x")])
        } else {
            (ParseTerminal::Opaque, Vec::new())
        };
        Ok(ParseReport {
            format: Some("fake".to_string()),
            members: members
                .into_iter()
                .map(|(p, k, b)| ParsedMember { path: p.to_string(), kind: k, bytes: b.to_vec() })
                .collect(),
            terminal,
            warnings: Vec::new(),
            limitations: Vec::new(),
        })
    }
}

fn backend(members: Vec<(&'static str, MemberKind, &'static [u8])>) -> FakeBackend {
    FakeBackend { generation: 1, root_terminal: ParseTerminal::Complete, root_members: members }
}

fn spec(budget: DecompositionBudget) -> DecompositionSpec {
    DecompositionSpec {
        workspace_ref: EntityRef::new("ws-1", "core.workspace"),
        authority_ref: EntityRef::new("auth-1", "core.authority"),
        source_revision_ref: EntityRef::new("rev-1", "object.revision"),
        budget,
        requested_level: "L3_decomposed".to_string(),
    }
}

#[test]
fn canonical_paths() {
    assert_eq!(canonical_member_path("docs/", 100).as_deref(), Some("docs"));
    assert_eq!(canonical_member_path("docs\\a.txt", 100).as_deref(), Some("docs/a.txt"));
    assert_eq!(canonical_member_path("./a//b/./c", 100).as_deref(), Some("a/b/c"));
    assert_eq!(canonical_member_path("", 100), None);
    assert_eq!(canonical_member_path("/etc/passwd", 100), None);
    assert_eq!(canonical_member_path("\\x", 100), None);
    assert_eq!(canonical_member_path("C:evil", 100), None);
    assert_eq!(canonical_member_path("a/../b", 100), None);
    assert_eq!(canonical_member_path("a\0b", 100), None);
    assert_eq!(canonical_member_path("./.", 100), None);
    assert_eq!(canonical_member_path("abcdef", 5), None);
    assert_eq!(join_path("", "a"), "a");
    assert_eq!(join_path("p", "a"), "p/a");
}

#[test]
fn budget_validation_names_the_field() {
    let ok = DecompositionBudget::default();
    assert!(validate_budget(ok).is_ok());
    let mut b = ok;
    b.max_members = 0;
    assert!(matches!(validate_budget(b), Err(DecompositionError::InvalidBudget("max_members"))));
    let mut b = ok;
    b.max_expanded_bytes = 0;
    assert!(matches!(validate_budget(b), Err(DecompositionError::InvalidBudget("max_expanded_bytes"))));
    let mut b = ok;
    b.max_member_bytes = b.max_expanded_bytes + 1;
    assert!(matches!(validate_budget(b), Err(DecompositionError::InvalidBudget("max_member_bytes"))));
    let mut b = ok;
    b.max_path_chars = 8193;
    assert!(matches!(validate_budget(b), Err(DecompositionError::InvalidBudget("max_path_chars"))));
}

#[test]
fn nested_archive_is_decomposed_in_order() {
    let b = backend(vec![
        ("docs/", MemberKind::Directory, b""),
        ("docs\\a.txt", MemberKind::Regular, b"hello"),
        ("./b.bin", MemberKind::Regular, b"NESTED"),
    ]);
    let plan = decompose(b"ROOT", &spec(DecompositionBudget::default()), &b).ok().unwrap();
    assert_eq!(plan.outcome, DecompositionOutcome::Complete);
    assert_eq!(plan.achieved_level, "L3_decomposed");
    let paths: Vec<&str> = plan.inventory.iter().map(|e| e.logical_path.as_str()).collect();
    assert_eq!(paths, vec!["docs", "docs/a.txt", "b.bin", "b.bin/inner.txt"]);
    assert_eq!(plan.inventory[3].depth, 1);
    assert_eq!(plan.inventory[0].kind, MemberKind::Directory);
    assert_eq!(plan.inventory[0].member_sha256, None);
    assert_eq!(plan.inventory[1].member_sha256.as_deref(), Some(sha256_hex(b"hello").as_str()));
    assert_eq!(plan.inventory[1].container_sha256, sha256_hex(b"ROOT"));
    assert_eq!(plan.inventory[3].container_sha256, sha256_hex(b"NESTED"));
    assert_eq!(plan.recovered_members.len(), 3);
    assert_eq!(plan.recovered_members[2].parent_inventory_index, Some(2));
    assert_eq!(plan.recovered_members[2].inventory_index, 3);
    assert_eq!(plan.recovered_members[0].bytes, b"hello".to_vec());
    assert_eq!(plan.processed_members, 4);
    assert_eq!(plan.processed_bytes, 12);
    assert!(plan.unknown_gaps.is_empty());
}

#[test]
fn identity_excludes_backend() {
    let s = spec(DecompositionBudget::default());
    let a = decompose(b"ROOT", &s, &backend(Vec::new())).ok().unwrap();
    let mut other = backend(Vec::new());
    other.generation = 9;
    let b = decompose(b"ROOT", &s, &other).ok().unwrap();
    assert_eq!(a.decomposition_identity, b.decomposition_identity);
    assert_eq!(a.decomposition_identity, stable_decomposition_identity(&s));
    assert!(a.decomposition_identity.starts_with("sha256:"));
    assert_eq!(a.achieved_level, "L1_detected");
    let mut changed = DecompositionBudget::default();
    changed.max_depth = 3;
    assert_ne!(stable_decomposition_identity(&spec(changed)), a.decomposition_identity);
}

#[test]
fn rejected_path_fails_closed() {
    let b = backend(vec![("../evil", MemberKind::Regular, b"x"), ("ok.txt", MemberKind::Regular, b"y")]);
    let plan = decompose(b"ROOT", &spec(DecompositionBudget::default()), &b).ok().unwrap();
    assert_eq!(plan.outcome, DecompositionOutcome::Failed);
    assert!(plan.inventory.is_empty());
    assert_eq!(plan.unknown_gaps, vec!["rejected archive path: ../evil".to_string()]);
}

#[test]
fn duplicate_and_link_members_fail_closed() {
    let dup = backend(vec![("a", MemberKind::Regular, b"1"), ("./a", MemberKind::Regular, b"2")]);
    let plan = decompose(b"ROOT", &spec(DecompositionBudget::default()), &dup).ok().unwrap();
    assert_eq!(plan.outcome, DecompositionOutcome::Failed);
    assert_eq!(plan.inventory.len(), 1);
    assert_eq!(plan.unknown_gaps, vec!["duplicate canonical path: a".to_string()]);

    let link = backend(vec![("l", MemberKind::Symlink, b"")]);
    let plan = decompose(b"ROOT", &spec(DecompositionBudget::default()), &link).ok().unwrap();
    assert_eq!(plan.outcome, DecompositionOutcome::Failed);
    assert_eq!(plan.inventory.len(), 1);
    assert_eq!(plan.achieved_level, "L2_inventoried");
    assert_eq!(plan.unknown_gaps, vec!["rejected symlink entry: l".to_string()]);
}

#[test]
fn budgets_exhaust_truthfully() {
    let b = backend(vec![("a", MemberKind::Regular, b"1"), ("b", MemberKind::Regular, b"2")]);
    let mut budget = DecompositionBudget::default();
    budget.max_members = 1;
    let plan = decompose(b"ROOT", &spec(budget), &b).ok().unwrap();
    assert_eq!(plan.outcome, DecompositionOutcome::BudgetExhausted);
    assert_eq!(plan.inventory.len(), 1);
    assert_eq!(plan.unknown_gaps, vec!["member-count budget exhausted".to_string()]);

    let big = backend(vec![("a", MemberKind::Regular, b"12345")]);
    let mut budget = DecompositionBudget::default();
    budget.max_member_bytes = 4;
    let plan = decompose(b"ROOT", &spec(budget), &big).ok().unwrap();
    assert_eq!(plan.outcome, DecompositionOutcome::BudgetExhausted);
    assert!(plan.inventory.is_empty());
    assert_eq!(plan.unknown_gaps, vec!["member exceeds per-member budget: a".to_string()]);
}

#[test]
fn parser_terminal_is_reported() {
    let mut b = backend(vec![("a", MemberKind::Regular, b"1")]);
    b.root_terminal = ParseTerminal::Truncated;
    let plan = decompose(b"ROOT", &spec(DecompositionBudget::default()), &b).ok().unwrap();
    assert_eq!(plan.outcome, DecompositionOutcome::Truncated);
    assert_eq!(plan.unknown_gaps, vec!["parser terminal: truncated".to_string()]);
    assert!(!plan.outcome.is_complete());
    assert_eq!(plan.outcome.as_str(), "truncated");
}

#[test]
fn invalid_requests_are_rejected() {
    let mut budget = DecompositionBudget::default();
    budget.max_members = 0;
    assert!(matches!(
        decompose(b"ROOT", &spec(budget), &backend(Vec::new())),
        Err(DecompositionError::InvalidBudget("max_members"))
    ));
    let mut s = spec(DecompositionBudget::default());
    s.source_revision_ref = EntityRef::new("rev-1", "object.other");
    assert!(matches!(decompose(b"ROOT", &s, &backend(Vec::new())), Err(DecompositionError::SourceMismatch)));
}

#[test]
fn identity_ignores_workspace_and_authority() {
    let a = spec(DecompositionBudget::default());
    let mut b = spec(DecompositionBudget::default());
    b.workspace_ref = EntityRef::new("ws-2", "core.workspace");
    b.authority_ref = EntityRef::new("auth-2", "core.authority");
    let id = stable_decomposition_identity(&a);
    assert_eq!(id, stable_decomposition_identity(&b));
    assert_eq!(id.len(), 71);
    assert!(id[7..].chars().all(|c| c.is_ascii_digit() || ('a'..='f').contains(&c)));
}
