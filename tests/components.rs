use stgit_core::alias::{expand_alias, Alias, AliasKind, Expansion};
use stgit_core::error::{Error, PathSpecError, RangeError};
use stgit_core::patchname::PatchName;
use stgit_core::pathspec::PathSpec;
use stgit_core::repo_state::RepositoryState;
use stgit_core::stack::{Patch, Stack};
use stgit_core::transaction::{FailureClass, Gate, MergeResult, Transaction};

fn strings(v: &[&str]) -> Vec<String> {
    v.iter().map(|s| s.to_string()).collect()
}

fn patch(s: &str, commit: u64) -> Patch {
    Patch { name: PatchName::parse(s).unwrap(), commit }
}

fn gate() -> Gate {
    Gate {
        repo_state: RepositoryState::Clean,
        resuming: None,
        outstanding_conflicts: false,
        index_clean: true,
        worktree_clean: true,
        tolerates_dirty: false,
    }
}

#[test]
fn refresh_scope_keeps_unrelated_changes() {
    let spec = PathSpec::new(strings(&["src/a.rs"]), vec![]).unwrap();
    let changed = strings(&["README", "src/a.rs", "src/a.rs.orig", "src/b.rs"]);
    let (fold, keep) = spec.split_changes(&changed);
    assert_eq!(fold, strings(&["src/a.rs"]));
    assert_eq!(keep, strings(&["README", "src/a.rs.orig", "src/b.rs"]));
}

#[test]
fn pathspec_directories_and_excludes() {
    let spec = PathSpec::new(strings(&["src"]), strings(&["src/gen"])).unwrap();
    assert!(spec.matches("src/a.rs"));
    assert!(spec.matches("src"));
    assert!(!spec.matches("srcx/a.rs"));
    assert!(!spec.matches("src/gen/x.rs"));
    let all = PathSpec::new(vec![], vec![]).unwrap();
    assert!(all.matches("anything"));
    assert_eq!(PathSpec::new(strings(&[""]), vec![]).err(), Some(Error::PathSpec(PathSpecError::EmptyPattern)));
    assert_eq!(PathSpec::new(vec![], strings(&["/etc"])).err(), Some(Error::PathSpec(PathSpecError::AbsolutePattern)));
}

#[test]
fn delete_drops_unapplied_patch() {
    let s = Stack::load(10, vec![patch("a", 1)], vec![patch("b", 2), patch("c", 3)], 1, 1).unwrap();
    let mut t = Transaction::begin(s, &gate(), FailureClass::Abort).unwrap();
    t.delete(&PatchName::parse("b").unwrap()).unwrap();
    assert_eq!(t.stack.unapplied.len(), 1);
    assert_eq!(t.stack.unapplied[0].name.as_str(), "c");
    let e = t.delete(&PatchName::parse("a").unwrap()).unwrap_err();
    assert_eq!(e, Error::PatchAlreadyApplied("a".to_string()));
    let e = t.delete(&PatchName::parse("b").unwrap()).unwrap_err();
    assert_eq!(e, Error::PatchDoesNotExist("b".to_string()));
}

#[test]
fn rebase_replays_patches_on_new_base() {
    let s = Stack::load(10, vec![patch("a", 1), patch("b", 2)], vec![], 2, 2).unwrap();
    let mut t = Transaction::begin(s, &gate(), FailureClass::Abort).unwrap();
    assert_eq!(t.rebase_onto(50).unwrap_err(), Error::PatchesStillApplied);
    let above = t.pop_through(&PatchName::parse("a").unwrap()).unwrap();
    assert_eq!(above.len(), 1);
    t.rebase_onto(50).unwrap();
    assert_eq!(t.stack.base, 50);
    assert_eq!(t.stack.head, 50);
    t.push(&PatchName::parse("a").unwrap(), MergeResult::Clean(51)).unwrap();
    t.push(&above[0], MergeResult::Clean(52)).unwrap();
    let u = t.commit(2).unwrap();
    assert_eq!(u.new_head, 52);
    assert_eq!(t.stack.head, 52);
}

#[test]
fn alias_chains_and_cycles() {
    let table = vec![
        Alias { name: "st".to_string(), kind: AliasKind::Command("status".to_string()) },
        Alias { name: "s".to_string(), kind: AliasKind::Command("st".to_string()) },
        Alias { name: "lg".to_string(), kind: AliasKind::Shell("git log".to_string()) },
        Alias { name: "l".to_string(), kind: AliasKind::Command("lg".to_string()) },
        Alias { name: "x".to_string(), kind: AliasKind::Command("y".to_string()) },
        Alias { name: "y".to_string(), kind: AliasKind::Command("x".to_string()) },
    ];
    assert_eq!(expand_alias(&table, &"s".to_string()).unwrap(), Expansion::Command("status".to_string()));
    assert_eq!(expand_alias(&table, &"push".to_string()).unwrap(), Expansion::Command("push".to_string()));
    assert_eq!(expand_alias(&table, &"l".to_string()).unwrap(), Expansion::Shell("git log".to_string()));
    assert_eq!(expand_alias(&table, &"x".to_string()).unwrap_err(), Error::RecursiveAlias("x".to_string()));
}

#[test]
fn hook_failure_aborts_and_names_hook() {
    let s = Stack::load(10, vec![patch("a", 1)], vec![patch("b", 2)], 1, 1).unwrap();
    let mut t = Transaction::begin(s, &gate(), FailureClass::Halt).unwrap();
    t.push(&PatchName::parse("b").unwrap(), MergeResult::Clean(22)).unwrap();
    let e = t.hook_failed("pre-commit".to_string(), "lint failed".to_string());
    assert_eq!(e, Error::Hook("pre-commit".to_string(), "lint failed".to_string()));
    assert_eq!(t.outcome, stgit_core::transaction::Outcome::Aborted);
    assert_eq!(t.stack.head, 1);
    assert_eq!(t.stack.unapplied.len(), 1);
}

#[test]
fn editor_failure_depends_on_class() {
    let s = Stack::load(10, vec![patch("a", 1)], vec![patch("b", 2)], 1, 1).unwrap();
    let mut t = Transaction::begin(s, &gate(), FailureClass::Halt).unwrap();
    t.push(&PatchName::parse("b").unwrap(), MergeResult::Clean(22)).unwrap();
    assert_eq!(t.editor_failed("vi".to_string()), Error::EditorFail("vi".to_string()));
    assert_eq!(t.outcome, stgit_core::transaction::Outcome::Open);
    assert_eq!(t.stack.head, 22);

    let s = Stack::load(10, vec![patch("a", 1)], vec![patch("b", 2)], 1, 1).unwrap();
    let mut t = Transaction::begin(s, &gate(), FailureClass::Abort).unwrap();
    t.push(&PatchName::parse("b").unwrap(), MergeResult::Clean(22)).unwrap();
    t.editor_failed("vi".to_string());
    assert_eq!(t.outcome, stgit_core::transaction::Outcome::Aborted);
    assert_eq!(t.stack.head, 1);
}

#[test]
fn reorder_pops_block_and_returns_push_order() {
    let s = Stack::load(
        10,
        vec![patch("a", 1), patch("b", 2), patch("c", 3), patch("d", 4)],
        vec![patch("e", 5)],
        4,
        4,
    )
    .unwrap();
    let mut t = Transaction::begin(s, &gate(), FailureClass::Abort).unwrap();
    let order = vec![PatchName::parse("c").unwrap(), PatchName::parse("b").unwrap()];
    let todo = t.reorder(&PatchName::parse("b").unwrap(), &order).unwrap();
    let todo: Vec<&str> = todo.iter().map(|n| n.as_str()).collect();
    assert_eq!(todo, vec!["c", "b", "d"]);
    assert_eq!(t.stack.applied.len(), 1);
    assert_eq!(t.stack.head, 1);
    let un: Vec<&str> = t.stack.unapplied.iter().map(|p| p.name.as_str()).collect();
    assert_eq!(un, vec!["b", "c", "d", "e"]);
}

#[test]
fn reorder_rejects_bad_orders() {
    let s = Stack::load(10, vec![patch("a", 1), patch("b", 2), patch("c", 3)], vec![patch("e", 5)], 3, 3).unwrap();
    let mut t = Transaction::begin(s, &gate(), FailureClass::Abort).unwrap();
    let n = |x: &str| PatchName::parse(x).unwrap();
    assert_eq!(t.reorder(&n("a"), &vec![]).unwrap_err(), Error::PatchRange(RangeError::EmptyOrder));
    assert_eq!(t.reorder(&n("a"), &vec![n("c"), n("a")]).unwrap_err(), Error::PatchRange(RangeError::NotContiguous));
    assert_eq!(t.reorder(&n("b"), &vec![n("b"), n("b")]).unwrap_err(), Error::PatchRange(RangeError::RepeatedName));
    assert_eq!(t.reorder(&n("a"), &vec![n("e")]).unwrap_err(), Error::PatchNotApplied("e".to_string()));
    assert_eq!(t.reorder(&n("e"), &vec![n("a")]).unwrap_err(), Error::PatchNotApplied("e".to_string()));
    assert_eq!(t.reorder(&n("b"), &vec![n("b"), n("c"), n("a")]).unwrap_err(), Error::PatchRange(RangeError::NotContiguous));
    assert_eq!(t.stack.applied.len(), 3);
}
