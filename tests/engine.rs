use stgit_core::error::{Error, NameError, RangeError};
use stgit_core::patchname::PatchName;
use stgit_core::patchrange::{Bound, PatchRange};
use stgit_core::repo_state::{check_repository_state, repo_state_to_str, RepositoryState};
use stgit_core::stack::{Patch, Stack};
use stgit_core::transaction::{
    Conflict, ConflictKind, FailureClass, Gate, MergeResult, Outcome, Transaction,
};

fn name(s: &str) -> PatchName {
    PatchName::parse(s).unwrap()
}

fn patch(s: &str, commit: u64) -> Patch {
    Patch { name: name(s), commit }
}

fn stack(applied: &[(&str, u64)], unapplied: &[(&str, u64)]) -> Stack {
    let applied: Vec<Patch> = applied.iter().map(|(n, c)| patch(n, *c)).collect();
    let unapplied: Vec<Patch> = unapplied.iter().map(|(n, c)| patch(n, *c)).collect();
    let head = applied.last().map(|p| p.commit).unwrap_or(100);
    Stack::load(100, applied, unapplied, head, head).unwrap()
}

fn names_of(list: &[Patch]) -> Vec<String> {
    list.iter().map(|p| p.name.to_text()).collect()
}

fn clean_gate() -> Gate {
    Gate {
        repo_state: RepositoryState::Clean,
        resuming: None,
        outstanding_conflicts: false,
        index_clean: true,
        worktree_clean: true,
        tolerates_dirty: false,
    }
}

fn open(s: Stack, class: FailureClass) -> Transaction {
    Transaction::begin(s, &clean_gate(), class).unwrap()
}

fn conflict(path: &str) -> Vec<Conflict> {
    vec![Conflict { path: path.to_string(), kind: ConflictKind::Content }]
}

#[test]
fn push_clean_merge_applies_patch_on_top() {
    let s = stack(&[("p1", 1), ("p2", 2)], &[("p3", 3)]);
    let mut t = open(s, FailureClass::Halt);
    t.push(&name("p3"), MergeResult::Clean(33)).unwrap();
    assert_eq!(names_of(&t.stack.applied), vec!["p1", "p2", "p3"]);
    assert!(t.stack.unapplied.is_empty());
    assert_eq!(t.stack.head, 33);
    assert_eq!(t.stack.applied[2].commit, 33);
    let u = t.commit(2).unwrap();
    assert_eq!(u.expected, 2);
    assert_eq!(u.new_head, 33);
    assert_eq!(t.outcome, Outcome::Committed);
    assert_eq!(t.stack.head, u.new_head);
}

#[test]
fn pop_below_top_moves_patch_to_front_of_unapplied() {
    let s = stack(&[("p1", 1), ("p2", 2), ("p3", 3)], &[("p4", 4)]);
    let mut t = open(s, FailureClass::Halt);
    let above = t.pop_through(&name("p2")).unwrap();
    let above: Vec<String> = above.iter().map(|n| n.to_text()).collect();
    assert_eq!(above, vec!["p3"]);
    assert_eq!(names_of(&t.stack.applied), vec!["p1"]);
    assert_eq!(names_of(&t.stack.unapplied), vec!["p2", "p3", "p4"]);
    assert_eq!(t.stack.head, 1);
    t.push(&name("p3"), MergeResult::Clean(31)).unwrap();
    assert_eq!(names_of(&t.stack.applied), vec!["p1", "p3"]);
    assert_eq!(names_of(&t.stack.unapplied), vec!["p2", "p4"]);
    assert_eq!(t.stack.head, 31);
}

#[test]
fn pop_with_nothing_applied_fails() {
    let s = stack(&[], &[("p1", 1)]);
    let mut t = open(s, FailureClass::Halt);
    let r = t.pop_through(&name("p1"));
    assert!(matches!(r, Err(Error::NotEnoughPatchesApplied)));
    assert_eq!(names_of(&t.stack.unapplied), vec!["p1"]);
}

#[test]
fn pop_errors_name_the_patch() {
    let s = stack(&[("p1", 1)], &[("p2", 2)]);
    let mut t = open(s, FailureClass::Halt);
    assert_eq!(t.pop_through(&name("p2")).unwrap_err(), Error::PatchNotApplied("p2".to_string()));
    assert_eq!(t.pop_through(&name("zz")).unwrap_err(), Error::PatchDoesNotExist("zz".to_string()));
    assert_eq!(t.push(&name("p1"), MergeResult::Clean(9)).unwrap_err(), Error::PatchAlreadyApplied("p1".to_string()));
    assert_eq!(t.push(&name("zz"), MergeResult::Clean(9)).unwrap_err(), Error::PatchDoesNotExist("zz".to_string()));
    assert_eq!(t.outcome, Outcome::Open);
}

#[test]
fn range_resolves_in_stack_order() {
    let s = stack(&[("p1", 1), ("p2", 2), ("p3", 3), ("p4", 4)], &[]);
    let rg = PatchRange::parse("p1..p3").unwrap();
    assert!(matches!(&rg, PatchRange::Span(Bound::Name(a), Bound::Name(b)) if a.as_str() == "p1" && b.as_str() == "p3"));
    let r: Vec<String> = rg.resolve(&s).unwrap().iter().map(|n| n.to_text()).collect();
    assert_eq!(r, vec!["p1", "p2", "p3"]);
    let again: Vec<String> = rg.resolve(&s).unwrap().iter().map(|n| n.to_text()).collect();
    assert_eq!(r, again);
    let back = PatchRange::parse("p3..p1").unwrap();
    assert_eq!(back.resolve(&s).unwrap_err(), Error::PatchRange(RangeError::Reversed));
}

#[test]
fn range_markers_and_errors() {
    let s = stack(&[("p1", 1), ("p2", 2)], &[("p3", 3)]);
    let all: Vec<String> = PatchRange::parse("{base}..{top}").unwrap().resolve(&s).unwrap().iter().map(|n| n.to_text()).collect();
    assert_eq!(all, vec!["p1", "p2"]);
    let top: Vec<String> = PatchRange::Single(Bound::Top).resolve(&s).unwrap().iter().map(|n| n.to_text()).collect();
    assert_eq!(top, vec!["p2"]);
    let mixed = PatchRange::parse("p1..p3").unwrap().resolve(&s).unwrap_err();
    assert_eq!(mixed, Error::PatchRange(RangeError::MixedLists));
    let missing = PatchRange::parse("p1..nope").unwrap().resolve(&s).unwrap_err();
    assert_eq!(missing, Error::RevisionNotFound("nope".to_string()));
    let empty = stack(&[], &[("p1", 1)]);
    assert_eq!(PatchRange::Single(Bound::Base).resolve(&empty).unwrap_err(), Error::NoAppliedPatches);
    let single: Vec<String> = PatchRange::parse("p1").unwrap().resolve(&empty).unwrap().iter().map(|n| n.to_text()).collect();
    assert_eq!(single, vec!["p1"]);
}

#[test]
fn range_parse_rejects_bad_ends() {
    assert_eq!(PatchRange::parse("..p1").unwrap_err(), Error::PatchName(NameError::Empty));
    assert_eq!(PatchRange::parse("a..b..c").unwrap_err(), Error::PatchName(NameError::DoubleDot));
    assert!(matches!(PatchRange::parse("{top}").unwrap(), PatchRange::Single(Bound::Top)));
}

#[test]
fn rebase_during_merge_fails_naming_merge() {
    let s = stack(&[("p1", 1)], &[]);
    let mut g = clean_gate();
    g.repo_state = RepositoryState::Merge;
    let r = Transaction::begin(s, &g, FailureClass::Abort);
    assert_eq!(r.unwrap_err(), Error::ActiveRepositoryState("merge".to_string()));
}

#[test]
fn gate_checks_in_order() {
    let mut g = clean_gate();
    g.repo_state = RepositoryState::Rebase;
    g.resuming = Some(RepositoryState::Rebase);
    assert!(Transaction::begin(stack(&[], &[]), &g, FailureClass::Halt).is_ok());
    g.outstanding_conflicts = true;
    g.index_clean = false;
    assert_eq!(Transaction::begin(stack(&[], &[]), &g, FailureClass::Halt).unwrap_err(), Error::OutstandingConflicts);
    g.outstanding_conflicts = false;
    assert_eq!(Transaction::begin(stack(&[], &[]), &g, FailureClass::Halt).unwrap_err(), Error::DirtyIndex);
    g.index_clean = true;
    g.worktree_clean = false;
    assert_eq!(Transaction::begin(stack(&[], &[]), &g, FailureClass::Halt).unwrap_err(), Error::DirtyWorktree);
    g.tolerates_dirty = true;
    assert!(Transaction::begin(stack(&[], &[]), &g, FailureClass::Halt).is_ok());
}

#[test]
fn push_then_pop_restores_stack() {
    let s = stack(&[("p1", 1)], &[("p2", 2), ("p3", 3)]);
    let mut t = open(s, FailureClass::Halt);
    t.push(&name("p2"), MergeResult::Clean(2)).unwrap();
    let above = t.pop_through(&name("p2")).unwrap();
    assert!(above.is_empty());
    assert_eq!(names_of(&t.stack.applied), names_of(&t.snapshot.applied));
    assert_eq!(names_of(&t.stack.unapplied), names_of(&t.snapshot.unapplied));
    assert_eq!(t.stack.unapplied[0].commit, 2);
    assert_eq!(t.stack.head, t.snapshot.head);
    assert_eq!(t.stack.base, t.snapshot.base);
}

#[test]
fn abort_class_conflict_restores_snapshot() {
    let s = stack(&[("p1", 1)], &[("p2", 2), ("p3", 3)]);
    let mut t = open(s, FailureClass::Abort);
    t.push(&name("p2"), MergeResult::Clean(22)).unwrap();
    let r = t.push(&name("p3"), MergeResult::Conflicted(conflict("a.txt")));
    assert_eq!(r.unwrap_err(), Error::TransactionAborted("p3".to_string()));
    assert_eq!(t.outcome, Outcome::Aborted);
    assert_eq!(names_of(&t.stack.applied), vec!["p1"]);
    assert_eq!(names_of(&t.stack.unapplied), vec!["p2", "p3"]);
    assert_eq!(t.stack.head, 1);
    assert_eq!(t.stack.unapplied[0].commit, 2);
}

#[test]
fn halt_class_conflict_keeps_earlier_work() {
    let s = stack(&[("p1", 1)], &[("p2", 2), ("p3", 3)]);
    let mut t = open(s, FailureClass::Halt);
    t.push(&name("p2"), MergeResult::Clean(22)).unwrap();
    t.push(&name("p3"), MergeResult::Conflicted(conflict("b.txt"))).unwrap();
    assert_eq!(t.outcome, Outcome::Halted);
    assert_eq!(names_of(&t.stack.applied), vec!["p1", "p2"]);
    assert_eq!(t.stack.head, 22);
    assert_eq!(t.conflicts.len(), 1);
    assert_eq!(t.conflicts[0].path, "b.txt");
    assert!(t.leaves_conflicts());
    let g = Gate::new(RepositoryState::Clean, None, t.leaves_conflicts(), true, true, false);
    let next = Transaction::begin(stack(&[], &[]), &g, FailureClass::Halt);
    assert_eq!(next.unwrap_err(), Error::OutstandingConflicts);
}

#[test]
fn commit_after_branch_moved_aborts() {
    let s = stack(&[("p1", 1)], &[("p2", 2)]);
    let mut t = open(s, FailureClass::Halt);
    t.push(&name("p2"), MergeResult::Clean(22)).unwrap();
    assert_eq!(t.commit(7).unwrap_err(), Error::RefUpdateRace);
    assert_eq!(t.outcome, Outcome::Aborted);
    assert_eq!(t.stack.head, 1);
    assert_eq!(names_of(&t.stack.unapplied), vec!["p2"]);
}

#[test]
fn abort_returns_to_snapshot() {
    let s = stack(&[("p1", 1), ("p2", 2)], &[]);
    let mut t = open(s, FailureClass::Halt);
    t.pop_through(&name("p1")).unwrap();
    t.abort();
    assert_eq!(t.outcome, Outcome::Aborted);
    assert_eq!(names_of(&t.stack.applied), vec!["p1", "p2"]);
    assert_eq!(t.stack.head, 2);
}

#[test]
fn refresh_replaces_top_commit() {
    let s = stack(&[("p1", 1), ("p2", 2)], &[]);
    let mut t = open(s, FailureClass::Halt);
    t.refresh_top(5).unwrap();
    assert_eq!(t.stack.applied[1].commit, 5);
    assert_eq!(t.stack.applied[0].commit, 1);
    assert_eq!(t.stack.head, 5);
    let mut e = open(stack(&[], &[]), FailureClass::Halt);
    assert_eq!(e.refresh_top(5).unwrap_err(), Error::NoAppliedPatches);
}

#[test]
fn lists_stay_disjoint_with_same_union() {
    let s = stack(&[("a", 1), ("b", 2)], &[("c", 3), ("d", 4)]);
    let mut t = open(s, FailureClass::Halt);
    t.push(&name("d"), MergeResult::Clean(44)).unwrap();
    t.pop_through(&name("a")).unwrap();
    let mut all = names_of(&t.stack.applied);
    all.extend(names_of(&t.stack.unapplied));
    let mut sorted = all.clone();
    sorted.sort();
    sorted.dedup();
    assert_eq!(sorted.len(), all.len());
    assert_eq!(sorted, vec!["a", "b", "c", "d"]);
}

#[test]
fn patch_name_rules() {
    assert_eq!(name("fix-bug_1.2").as_str(), "fix-bug_1.2");
    assert_eq!(PatchName::parse("").unwrap_err(), NameError::Empty);
    assert_eq!(PatchName::parse("a b").unwrap_err(), NameError::InvalidChar);
    assert_eq!(PatchName::parse("a\tb").unwrap_err(), NameError::InvalidChar);
    assert_eq!(PatchName::parse("{base}").unwrap_err(), NameError::InvalidChar);
    assert_eq!(PatchName::parse(".a").unwrap_err(), NameError::LeadingDot);
    assert_eq!(PatchName::parse("a.").unwrap_err(), NameError::TrailingDot);
    assert_eq!(PatchName::parse("a..b").unwrap_err(), NameError::DoubleDot);
    assert_eq!(PatchName::parse("a\u{a0}b").unwrap_err(), NameError::InvalidChar);
    assert_eq!(PatchName::parse("a\u{85}b").unwrap_err(), NameError::InvalidChar);
    assert_eq!(PatchName::parse("a\u{3000}b").unwrap_err(), NameError::InvalidChar);
    assert_eq!(PatchName::parse("a\u{2009}b").unwrap_err(), NameError::InvalidChar);
    assert_eq!(name("caf\u{e9}").as_str(), "caf\u{e9}");
    assert!(name("Abc").same_as(&name("Abc")));
    assert!(!name("Abc").same_as(&name("abc")));
}

#[test]
fn stack_uniqueness_checks() {
    let s = stack(&[("p1", 1)], &[("p2", 2)]);
    assert_eq!(s.ensure_unique(&name("p2")).unwrap_err(), Error::PatchAlreadyExists("p2".to_string()));
    assert!(s.ensure_unique(&name("p3")).is_ok());
    assert!(s.ensure_exists(&name("p1")).is_ok());
    assert_eq!(s.ensure_exists(&name("p3")).unwrap_err(), Error::PatchDoesNotExist("p3".to_string()));
}

#[test]
fn load_checks_record_and_tip() {
    let dup = Stack::load(100, vec![patch("a", 1)], vec![patch("a", 2)], 1, 1);
    assert_eq!(dup.unwrap_err(), Error::PatchAlreadyExists("a".to_string()));
    let bad_head = Stack::load(100, vec![patch("a", 1)], vec![], 5, 5);
    assert_eq!(bad_head.unwrap_err(), Error::MalformedMetadata);
    let moved = Stack::load(100, vec![patch("a", 1)], vec![], 1, 9);
    assert_eq!(moved.unwrap_err(), Error::StackTopHeadMismatch);
    let empty = Stack::load(100, vec![], vec![], 100, 100).unwrap();
    assert_eq!(empty.head, 100);
    assert_eq!(Stack::new(7).head, 7);
}

#[test]
fn repository_state_labels() {
    assert_eq!(repo_state_to_str(RepositoryState::Clean), "clean");
    assert_eq!(repo_state_to_str(RepositoryState::RevertSequence), "revert");
    assert_eq!(repo_state_to_str(RepositoryState::CherryPickSequence), "cherry-pick");
    assert_eq!(repo_state_to_str(RepositoryState::RebaseInteractive), "interactive rebase");
    assert_eq!(repo_state_to_str(RepositoryState::ApplyMailboxOrRebase), "rebase or apply mailbox");
    assert!(check_repository_state(RepositoryState::Clean, None).is_ok());
    assert_eq!(
        check_repository_state(RepositoryState::Bisect, Some(RepositoryState::Merge)).unwrap_err(),
        Error::ActiveRepositoryState("bisect".to_string())
    );
}

#[test]
fn repair_moves_head_to_tip() {
    let s = stack(&[("p1", 1), ("p2", 2)], &[("p3", 3)]);
    let mut t = open(s, FailureClass::Halt);
    t.repair(9);
    assert_eq!(t.stack.head, 9);
    assert_eq!(t.stack.applied[1].commit, 9);
    assert_eq!(t.stack.applied[0].commit, 1);
    assert_eq!(names_of(&t.stack.unapplied), vec!["p3"]);
    let mut e = open(stack(&[], &[("p1", 1)]), FailureClass::Halt);
    e.repair(8);
    assert_eq!(e.stack.base, 8);
    assert_eq!(e.stack.head, 8);
}

#[test]
fn finished_transactions_leave_no_marker_unless_halted() {
    let mut t = open(stack(&[("p1", 1)], &[]), FailureClass::Halt);
    assert!(!t.leaves_conflicts());
    t.commit(1).unwrap();
    assert!(!t.leaves_conflicts());
}
