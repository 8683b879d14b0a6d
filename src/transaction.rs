use vstd::prelude::*;
use crate::error::{Error, RangeError};
use crate::patchname::PatchName;
use crate::repo_state::{RepositoryState, check_repository_state, state_admits, state_label};
use crate::stack::{
    CommitId, Patch, Stack, find_name, holds_name, lemma_popped_wf, lemma_pushed_wf,
    lemma_refreshed_wf, lemma_deleted_wf, repaired, block_order, named_in, name_views, names, popped_from, pushed, refreshed,
    deleted, rebased,
};

verus! {

/// How a conflict ends a transaction: a halt keeps the work done so far and
/// leaves the conflict to be resolved by hand; an abort restores the snapshot.
#[derive(Clone, Copy, Debug, PartialEq, Eq, Structural)]
pub enum FailureClass {
    Halt,
    Abort,
}

#[derive(Clone, Copy, Debug, PartialEq, Eq, Structural)]
pub enum Outcome {
    Open,
    Committed,
    Aborted,
    Halted,
}

#[derive(Clone, Copy, Debug, PartialEq, Eq, Structural)]
pub enum ConflictKind {
    Content,
    DeletedByUs,
    DeletedByThem,
    BothAdded,
}

/// One path left with conflict markers.
#[derive(Debug)]
pub struct Conflict {
    pub path: String,
    pub kind: ConflictKind,
}

/// What the version-control engine reports after applying a patch's changes
/// onto the current head: a clean commit, or the conflicting paths.
#[derive(Debug)]
pub enum MergeResult {
    Clean(CommitId),
    Conflicted(Vec<Conflict>),
}

/// What is observed of the repository before a transaction opens.
#[derive(Clone, Copy, Debug)]
pub struct Gate {
    pub repo_state: RepositoryState,
    /// The in-progress state that the caller is explicitly resuming, if any.
    pub resuming: Option<RepositoryState>,
    /// A halted transaction left conflicts that are not yet resolved.
    pub outstanding_conflicts: bool,
    pub index_clean: bool,
    pub worktree_clean: bool,
    /// The operation reads a dirty index and worktree on purpose.
    pub tolerates_dirty: bool,
}

/// The reference update that commits a transaction: the branch moves from
/// `expected` to `new_head` only if it still points at `expected`.
#[derive(Clone, Copy, Debug, PartialEq, Eq, Structural)]
pub struct RefUpdate {
    pub expected: CommitId,
    pub new_head: CommitId,
}

/// An open, committed, aborted or halted sequence of stack changes, with the
/// snapshot it started from.
#[derive(Debug)]
pub struct Transaction {
    pub snapshot: Stack,
    pub stack: Stack,
    pub class: FailureClass,
    pub outcome: Outcome,
    pub conflicts: Vec<Conflict>,
}

/// Every precondition of a new transaction holds.
pub open spec fn gate_passes(g: Gate) -> bool {
    &&& state_admits(g.repo_state, g.resuming)
    &&& !g.outstanding_conflicts
    &&& g.tolerates_dirty || g.index_clean
    &&& g.tolerates_dirty || g.worktree_clean
}

/// `e` is the error for the first precondition that fails, checked in this
/// order: repository state, outstanding conflicts, dirty index, dirty worktree.
pub open spec fn gate_error(g: Gate, e: Error) -> bool {
    if !state_admits(g.repo_state, g.resuming) {
        e matches Error::ActiveRepositoryState(label) && label@ == state_label(g.repo_state)
    } else if g.outstanding_conflicts {
        e matches Error::OutstandingConflicts
    } else if !g.tolerates_dirty && !g.index_clean {
        e matches Error::DirtyIndex
    } else {
        e matches Error::DirtyWorktree
    }
}

/// How a conflict ends a transaction that stood at `before`: a halt keeps
/// the stack and records the conflicts, an abort returns to the snapshot.
pub open spec fn conflict_ending(before: Transaction, after: Transaction, cs: Seq<Conflict>) -> bool {
    match before.class {
        FailureClass::Halt => after.outcome == Outcome::Halted && after.stack@ == before.stack@
            && after.conflicts@ == cs,
        FailureClass::Abort => after.outcome == Outcome::Aborted && after.stack@
            == before.snapshot@,
    }
}

/// While conflicts that a halted transaction left are unresolved, no new
/// transaction opens: one on a repository whose state lets it in fails with
/// the outstanding-conflicts error.
pub proof fn lemma_outstanding_conflicts_block(g: Gate)
    requires
        g.outstanding_conflicts,
        state_admits(g.repo_state, g.resuming),
    ensures
        !gate_passes(g),
        forall|e: Error| gate_error(g, e) <==> e matches Error::OutstandingConflicts,
{
}

/// A halted transaction leaves conflicts behind, which block the next one.
pub open spec fn conflict_marker(t: Transaction) -> bool {
    t.outcome == Outcome::Halted
}

/// The conflicts that a halted transaction leaves block the next one: a gate
/// that carries its marker refuses with the outstanding-conflicts error, even
/// on a clean repository.
pub proof fn lemma_halt_blocks_next(t: Transaction, g: Gate)
    requires
        t.outcome == Outcome::Halted,
        g.outstanding_conflicts == conflict_marker(t),
        state_admits(g.repo_state, g.resuming),
    ensures
        !gate_passes(g),
        forall|e: Error| gate_error(g, e) <==> e matches Error::OutstandingConflicts,
{
}

impl Gate {
    /// The preconditions as observed: `outstanding_conflicts` is the marker
    /// that the last transaction left (see `Transaction::leaves_conflicts`).
    pub fn new(
        repo_state: RepositoryState,
        resuming: Option<RepositoryState>,
        outstanding_conflicts: bool,
        index_clean: bool,
        worktree_clean: bool,
        tolerates_dirty: bool,
    ) -> (r: Gate)
        ensures
            r == (Gate {
                repo_state,
                resuming,
                outstanding_conflicts,
                index_clean,
                worktree_clean,
                tolerates_dirty,
            }),
    {
        Gate { repo_state, resuming, outstanding_conflicts, index_clean, worktree_clean, tolerates_dirty }
    }
}

impl Transaction {
    /// Whether this transaction leaves an outstanding-conflict marker, which
    /// the next gate must carry until the conflicts are resolved.
    pub fn leaves_conflicts(&self) -> (r: bool)
        ensures
            r == conflict_marker(*self),
    {
        match self.outcome {
            Outcome::Halted => true,
            _ => false,
        }
    }

    /// Move the recorded head to the branch's actual tip and change nothing
    /// else: the top patch, or the base when nothing is applied, now stands
    /// at the tip.
    pub fn repair(&mut self, tip: CommitId)
        requires
            old(self).is_open(),
        ensures
            final(self).wf(),
            final(self).snapshot@ == old(self).snapshot@,
            final(self).class == old(self).class,
            final(self).outcome == Outcome::Open,
            final(self).stack@ == repaired(old(self).stack@, tip),
            final(self).stack.head == tip,
    {
        proof {
            crate::stack::lemma_union_kept(self.stack@, 0, tip);
        }
        if self.stack.applied.len() == 0 {
            self.stack.base = tip;
            self.stack.head = tip;
        } else {
            let top = self.stack.applied.pop().unwrap();
            self.stack.applied.push(Patch { name: top.name, commit: tip });
            self.stack.head = tip;
            assert(self.stack@.applied =~= repaired(old(self).stack@, tip).applied);
        }
    }

    pub open spec fn wf(&self) -> bool {
        &&& self.snapshot.wf()
        &&& self.stack.wf()
    }

    pub open spec fn is_open(&self) -> bool {
        self.wf() && self.outcome == Outcome::Open
    }

    /// Start a transaction when every precondition holds; a refusal has no
    /// side effects.
    pub fn begin(stack: Stack, gate: &Gate, class: FailureClass) -> (r: Result<Transaction, Error>)
        requires
            stack.wf(),
        ensures
            r is Ok <==> gate_passes(*gate),
            r matches Err(e) ==> gate_error(*gate, e),
            r matches Ok(t) ==> t.is_open() && t.snapshot@ == stack@ && t.stack@ == stack@
                && t.class == class && t.conflicts@.len() == 0,
    {
        match check_repository_state(gate.repo_state, gate.resuming) {
            Ok(()) => {},
            Err(e) => {
                return Err(e);
            },
        }
        if gate.outstanding_conflicts {
            return Err(Error::OutstandingConflicts);
        }
        if !gate.tolerates_dirty && !gate.index_clean {
            return Err(Error::DirtyIndex);
        }
        if !gate.tolerates_dirty && !gate.worktree_clean {
            return Err(Error::DirtyWorktree);
        }
        let working = stack.clone();
        Ok(Transaction {
            snapshot: stack,
            stack: working,
            class,
            outcome: Outcome::Open,
            conflicts: Vec::new(),
        })
    }

    /// Apply the unapplied patch `name` on top. The caller has asked the
    /// version-control engine to apply its changes onto the current head and
    /// hands over what came back: a clean commit, or conflicts, which end the
    /// transaction as its failure class says.
    pub fn push(&mut self, name: &PatchName, merge: MergeResult) -> (r: Result<(), Error>)
        requires
            old(self).is_open(),
        ensures
            final(self).wf(),
            final(self).snapshot@ == old(self).snapshot@,
            final(self).class == old(self).class,
            r is Ok <==> holds_name(old(self).stack.unapplied@, name@) && !(merge is Conflicted
                && old(self).class == FailureClass::Abort),
            !holds_name(old(self).stack.unapplied@, name@) ==> final(self).stack@ == old(
                self,
            ).stack@ && final(self).outcome == Outcome::Open && if old(self).stack.contains(
                name@,
            ) {
                (r matches Err(e) && e matches Error::PatchAlreadyApplied(n) && n@ == name@)
            } else {
                (r matches Err(e) && e matches Error::PatchDoesNotExist(n) && n@ == name@)
            },
            holds_name(old(self).stack.unapplied@, name@) && merge is Conflicted && old(self).class
                == FailureClass::Abort ==> (r matches Err(e) && e matches Error::TransactionAborted(
                n,
            ) && n@ == name@),
            holds_name(old(self).stack.unapplied@, name@) ==> forall|i: int|
                0 <= i < old(self).stack.unapplied@.len()
                    && #[trigger] old(self).stack.unapplied@[i].name@ == name@ ==> match merge {
                    MergeResult::Clean(c) => final(self).outcome == Outcome::Open
                        && final(self).stack@ == pushed(old(self).stack@, i, c),
                    MergeResult::Conflicted(cs) => conflict_ending(*old(self), *final(self), cs@),
                },
    {
        proof {
            crate::stack::lemma_holds_name_concat(
                self.stack.applied@,
                self.stack.unapplied@,
                name@,
            );
        }
        let i = match find_name(&self.stack.unapplied, name) {
            Some(i) => i,
            None => {
                if find_name(&self.stack.applied, name).is_some() {
                    return Err(Error::PatchAlreadyApplied(name.to_text()));
                }
                return Err(Error::PatchDoesNotExist(name.to_text()));
            },
        };
        proof {
            assert forall|k: int|
                0 <= k < self.stack.unapplied@.len() && #[trigger] self.stack.unapplied@[k].name@
                    == name@ implies k == i by {
                let a = self.stack.applied@.len() as int;
                assert(self.stack.all()[a + k] == self.stack.unapplied@[k]);
                assert(self.stack.all()[a + i] == self.stack.unapplied@[i as int]);
            }
        }
        match merge {
            MergeResult::Clean(c) => {
                proof {
                    lemma_pushed_wf(self.stack@, i as int, c);
                }
                let p = self.stack.unapplied.remove(i);
                self.stack.applied.push(Patch { name: p.name, commit: c });
                self.stack.head = c;
                assert(self.stack@.applied =~= pushed(old(self).stack@, i as int, c).applied);
                assert(self.stack@.unapplied =~= pushed(old(self).stack@, i as int, c).unapplied);
                Ok(())
            },
            MergeResult::Conflicted(cs) => {
                self.fail_on_conflict(cs);
                match self.class {
                    FailureClass::Abort => Err(Error::TransactionAborted(name.to_text())),
                    FailureClass::Halt => Ok(()),
                }
            },
        }
    }

    /// Pop the applied patch `name` together with every patch above it; they
    /// go, in stack order, to the front of the unapplied list. Returns the
    /// names of the patches that were above `name`, bottom first: pushing
    /// them again leaves `name` alone popped.
    pub fn pop_through(&mut self, name: &PatchName) -> (r: Result<Vec<PatchName>, Error>)
        requires
            old(self).is_open(),
        ensures
            final(self).wf(),
            final(self).snapshot@ == old(self).snapshot@,
            final(self).class == old(self).class,
            final(self).outcome == Outcome::Open,
            r is Ok <==> holds_name(old(self).stack.applied@, name@),
            r matches Err(e) ==> final(self).stack@ == old(self).stack@ && if old(
                self,
            ).stack.applied@.len() == 0 {
                e matches Error::NotEnoughPatchesApplied
            } else if old(self).stack.contains(name@) {
                e matches Error::PatchNotApplied(n) && n@ == name@
            } else {
                e matches Error::PatchDoesNotExist(n) && n@ == name@
            },
            r matches Ok(v) ==> forall|i: int|
                0 <= i < old(self).stack.applied@.len()
                    && #[trigger] old(self).stack.applied@[i].name@ == name@ ==> final(self).stack@
                    == popped_from(old(self).stack@, i) && name_views(v@) == names(
                    old(self).stack.applied@.subrange(i + 1, old(self).stack.applied@.len() as int),
                ),
    {
        proof {
            crate::stack::lemma_holds_name_concat(
                self.stack.applied@,
                self.stack.unapplied@,
                name@,
            );
        }
        if self.stack.applied.len() == 0 {
            return Err(Error::NotEnoughPatchesApplied);
        }
        let i = match find_name(&self.stack.applied, name) {
            Some(i) => i,
            None => {
                if find_name(&self.stack.unapplied, name).is_some() {
                    return Err(Error::PatchNotApplied(name.to_text()));
                }
                return Err(Error::PatchDoesNotExist(name.to_text()));
            },
        };
        proof {
            assert forall|k: int|
                0 <= k < self.stack.applied@.len() && #[trigger] self.stack.applied@[k].name@
                    == name@ implies k == i by {
                assert(self.stack.all()[k] == self.stack.applied@[k]);
                assert(self.stack.all()[i as int] == self.stack.applied@[i as int]);
            }
            lemma_popped_wf(self.stack@, i as int);
        }
        let len = self.stack.applied.len();
        let above = crate::stack::names_in(&self.stack.applied, i + 1, len);
        let mut tail = self.stack.applied.split_off(i);
        tail.append(&mut self.stack.unapplied);
        self.stack.unapplied = tail;
        self.stack.head = if i == 0 {
            self.stack.base
        } else {
            self.stack.applied[i - 1].commit
        };
        assert(self.stack@.unapplied =~= popped_from(old(self).stack@, i as int).unapplied);
        Ok(above)
    }

    /// Replace the top patch's commit by `commit`, the one the version-control
    /// engine made from the changes that a refresh folds in.
    pub fn refresh_top(&mut self, commit: CommitId) -> (r: Result<(), Error>)
        requires
            old(self).is_open(),
        ensures
            final(self).wf(),
            final(self).snapshot@ == old(self).snapshot@,
            final(self).class == old(self).class,
            final(self).outcome == Outcome::Open,
            r is Ok <==> old(self).stack.applied@.len() > 0,
            r is Ok ==> final(self).stack@ == refreshed(old(self).stack@, commit),
            r matches Err(e) ==> e matches Error::NoAppliedPatches && final(self).stack@ == old(
                self,
            ).stack@,
    {
        let len = self.stack.applied.len();
        if len == 0 {
            return Err(Error::NoAppliedPatches);
        }
        proof {
            lemma_refreshed_wf(self.stack@, commit);
        }
        let top = self.stack.applied.pop().unwrap();
        self.stack.applied.push(Patch { name: top.name, commit });
        self.stack.head = commit;
        assert(self.stack@.applied =~= refreshed(old(self).stack@, commit).applied);
        Ok(())
    }

    /// Start giving the block of applied patches that begins at `bottom` a new
    /// order: every patch from `bottom` up is popped, and the names to push
    /// back are returned, `order` first and then the patches that were above
    /// the block.
    pub fn reorder(&mut self, bottom: &PatchName, order: &Vec<PatchName>) -> (r: Result<
        Vec<PatchName>,
        Error,
    >)
        requires
            old(self).is_open(),
        ensures
            final(self).wf(),
            final(self).snapshot@ == old(self).snapshot@,
            final(self).class == old(self).class,
            final(self).outcome == Outcome::Open,
            r is Ok <==> exists|lo: int|
                0 <= lo < old(self).stack.applied@.len() && #[trigger] old(self).stack.applied@[lo].name@
                    == bottom@ && block_order(old(self).stack@, name_views(order@), lo),
            r is Err ==> final(self).stack@ == old(self).stack@,
            r matches Ok(v) ==> forall|lo: int|
                0 <= lo < old(self).stack.applied@.len() && #[trigger] old(self).stack.applied@[lo].name@
                    == bottom@ ==> final(self).stack@ == popped_from(old(self).stack@, lo)
                    && name_views(v@) == name_views(order@) + names(
                    old(self).stack.applied@.subrange(
                        lo + order@.len(),
                        old(self).stack.applied@.len() as int,
                    ),
                ),
    {
        let ghost s0 = self.stack@;
        let ghost ov = name_views(order@);
        let k = order.len();
        let n = self.stack.applied.len();
        let lo = match find_name(&self.stack.applied, bottom) {
            Some(j) => j,
            None => {
                return Err(Error::PatchNotApplied(bottom.to_text()));
            },
        };
        proof {
            assert forall|j: int| 0 <= j < n && #[trigger] s0.applied[j].name@ == bottom@ implies j
                == lo by {
                assert(s0.all()[j] == s0.applied[j]);
                assert(s0.all()[lo as int] == s0.applied[lo as int]);
            }
        }
        if k == 0 {
            return Err(Error::PatchRange(RangeError::EmptyOrder));
        }
        if k > n - lo {
            return Err(Error::PatchRange(RangeError::NotContiguous));
        }
        let mut a: usize = 0;
        while a < k
            invariant
                *self == *old(self),
                s0 == old(self).stack@,
                k == order@.len(),
                n == s0.applied.len(),
                self.stack@ == s0,
                old(self).is_open(),
                lo < n,
                s0.applied[lo as int].name@ == bottom@,
                forall|j: int| 0 <= j < n && #[trigger] s0.applied[j].name@ == bottom@ ==> j == lo,
                s0.wf(),
                ov == name_views(order@),
                a <= k,
                lo + k <= n,
                forall|x: int| 0 <= x < a ==> named_in(s0.applied, #[trigger] ov[x], lo as int, lo + k),
                forall|x: int, y: int| 0 <= x < a && 0 <= y < a && x != y ==> #[trigger] ov[x]
                    != #[trigger] ov[y],
            decreases k - a,
        {
            proof {
                assert(ov[a as int] == order@[a as int]@);
            }
            let j = match find_name(&self.stack.applied, &order[a]) {
                Some(j) => j,
                None => {
                    proof {
                        if exists|lo2: int|
                            0 <= lo2 < n && #[trigger] s0.applied[lo2].name@ == bottom@
                                && block_order(s0, ov, lo2) {
                            let lo2 = choose|lo2: int|
                                0 <= lo2 < n && #[trigger] s0.applied[lo2].name@ == bottom@
                                    && block_order(s0, ov, lo2);
                            assert(named_in(s0.applied, ov[a as int], lo2, lo2 + k));
                            let j2 = choose|j2: int| lo2 <= j2 < lo2 + k && #[trigger] s0.applied[j2].name@ == ov[a as int];
                            assert(s0.applied[j2].name@ == order@[a as int]@);
                        }
                    }
                    return Err(Error::PatchNotApplied(order[a].to_text()));
                },
            };
            proof {
                assert forall|j2: int|
                    0 <= j2 < n && #[trigger] s0.applied[j2].name@ == ov[a as int] implies j2
                    == j by {
                    assert(s0.all()[j2] == s0.applied[j2]);
                    assert(s0.all()[j as int] == s0.applied[j as int]);
                }
            }
            if j < lo || j >= lo + k {
                proof {
                    if exists|lo2: int|
                        0 <= lo2 < n && #[trigger] s0.applied[lo2].name@ == bottom@
                            && block_order(s0, ov, lo2) {
                        let lo2 = choose|lo2: int|
                            0 <= lo2 < n && #[trigger] s0.applied[lo2].name@ == bottom@
                                && block_order(s0, ov, lo2);
                        assert(lo2 == lo);
                        assert(named_in(s0.applied, ov[a as int], lo2, lo2 + k));
                        let j2 = choose|j2: int| lo2 <= j2 < lo2 + k && #[trigger] s0.applied[j2].name@ == ov[a as int];
                        assert(j2 == j);
                    }
                }
                return Err(Error::PatchRange(RangeError::NotContiguous));
            }
            let mut b: usize = 0;
            while b < a
                invariant
                    *self == *old(self),
                    old(self).is_open(),
                    a < k,
                    k == order@.len(),
                    ov == name_views(order@),
                    s0 == old(self).stack@,
                    b <= a,
                    forall|y: int| 0 <= y < b ==> #[trigger] ov[y] != ov[a as int],
                decreases a - b,
            {
                proof {
                    assert(ov[b as int] == order@[b as int]@);
                }
                if order[b].same_as(&order[a]) {
                    proof {
                        assert(ov[b as int] == ov[a as int]);
                        if exists|lo2: int|
                            0 <= lo2 < s0.applied.len() && #[trigger] s0.applied[lo2].name@ == bottom@
                                && block_order(s0, ov, lo2) {
                            let lo2 = choose|lo2: int|
                                0 <= lo2 < s0.applied.len() && #[trigger] s0.applied[lo2].name@ == bottom@
                                    && block_order(s0, ov, lo2);
                            assert(ov[b as int] != ov[a as int]);
                        }
                    }
                    return Err(Error::PatchRange(RangeError::RepeatedName));
                }
                b = b + 1;
            }
            proof {
                assert(s0.applied[j as int].name@ == ov[a as int]);
            }
            a = a + 1;
        }
        proof {
            crate::stack::lemma_popped_wf(s0, lo as int);
        }
        let mut todo = order.clone();
        let above = crate::stack::names_in(&self.stack.applied, lo + k, n);
        let mut rest = above;
        todo.append(&mut rest);
        let mut tail = self.stack.applied.split_off(lo);
        tail.append(&mut self.stack.unapplied);
        self.stack.unapplied = tail;
        self.stack.head = if lo == 0 {
            self.stack.base
        } else {
            self.stack.applied[lo - 1].commit
        };
        assert(self.stack@.unapplied =~= popped_from(s0, lo as int).unapplied);
        Ok(todo)
    }

    /// Drop the unapplied patch `name` from the stack. An applied patch must
    /// be popped first.
    pub fn delete(&mut self, name: &PatchName) -> (r: Result<(), Error>)
        requires
            old(self).is_open(),
        ensures
            final(self).wf(),
            final(self).snapshot@ == old(self).snapshot@,
            final(self).class == old(self).class,
            final(self).outcome == Outcome::Open,
            r is Ok <==> holds_name(old(self).stack.unapplied@, name@),
            r matches Err(e) ==> final(self).stack@ == old(self).stack@ && if old(
                self,
            ).stack.contains(name@) {
                e matches Error::PatchAlreadyApplied(n) && n@ == name@
            } else {
                e matches Error::PatchDoesNotExist(n) && n@ == name@
            },
            r is Ok ==> forall|i: int|
                0 <= i < old(self).stack.unapplied@.len()
                    && #[trigger] old(self).stack.unapplied@[i].name@ == name@ ==> final(self).stack@
                    == deleted(old(self).stack@, i),
    {
        proof {
            crate::stack::lemma_holds_name_concat(
                self.stack.applied@,
                self.stack.unapplied@,
                name@,
            );
        }
        let i = match find_name(&self.stack.unapplied, name) {
            Some(i) => i,
            None => {
                if find_name(&self.stack.applied, name).is_some() {
                    return Err(Error::PatchAlreadyApplied(name.to_text()));
                }
                return Err(Error::PatchDoesNotExist(name.to_text()));
            },
        };
        proof {
            assert forall|k: int|
                0 <= k < self.stack.unapplied@.len() && #[trigger] self.stack.unapplied@[k].name@
                    == name@ implies k == i by {
                let a = self.stack.applied@.len() as int;
                assert(self.stack.all()[a + k] == self.stack.unapplied@[k]);
                assert(self.stack.all()[a + i] == self.stack.unapplied@[i as int]);
            }
            lemma_deleted_wf(self.stack@, i as int);
        }
        self.stack.unapplied.remove(i);
        Ok(())
    }

    /// Move the stack onto a new base commit. Every patch must be popped
    /// first; pushing them again then replays them on the new base.
    pub fn rebase_onto(&mut self, new_base: CommitId) -> (r: Result<(), Error>)
        requires
            old(self).is_open(),
        ensures
            final(self).wf(),
            final(self).snapshot@ == old(self).snapshot@,
            final(self).class == old(self).class,
            final(self).outcome == Outcome::Open,
            r is Ok <==> old(self).stack.applied@.len() == 0,
            r is Ok ==> final(self).stack@ == rebased(old(self).stack@, new_base),
            r matches Err(e) ==> e matches Error::PatchesStillApplied && final(self).stack@ == old(
                self,
            ).stack@,
    {
        if self.stack.applied.len() != 0 {
            return Err(Error::PatchesStillApplied);
        }
        self.stack.base = new_base;
        self.stack.head = new_base;
        Ok(())
    }

    /// A hook script failed: the whole transaction aborts, and the error names
    /// the hook and carries what it printed.
    pub fn hook_failed(&mut self, hook: String, output: String) -> (r: Error)
        requires
            old(self).is_open(),
        ensures
            final(self).wf(),
            final(self).outcome == Outcome::Aborted,
            final(self).snapshot@ == old(self).snapshot@,
            final(self).stack@ == old(self).snapshot@,
            r matches Error::Hook(h, o) && h@ == hook@ && o@ == output@,
    {
        self.abort();
        Error::Hook(hook, output)
    }

    /// The editor failed or the edit was cancelled: only the sub-operation
    /// fails, unless the transaction is abort-class, which then aborts.
    pub fn editor_failed(&mut self, editor: String) -> (r: Error)
        requires
            old(self).is_open(),
        ensures
            final(self).wf(),
            final(self).snapshot@ == old(self).snapshot@,
            old(self).class == FailureClass::Halt ==> final(self).outcome == Outcome::Open
                && final(self).stack@ == old(self).stack@,
            old(self).class == FailureClass::Abort ==> final(self).outcome == Outcome::Aborted
                && final(self).stack@ == old(self).snapshot@,
            r matches Error::EditorFail(x) && x@ == editor@,
    {
        match self.class {
            FailureClass::Abort => self.abort(),
            FailureClass::Halt => {},
        }
        Error::EditorFail(editor)
    }

    /// Give the transaction up: the stack goes back to the snapshot.
    pub fn abort(&mut self)
        requires
            old(self).is_open(),
        ensures
            final(self).wf(),
            final(self).outcome == Outcome::Aborted,
            final(self).snapshot@ == old(self).snapshot@,
            final(self).stack@ == old(self).snapshot@,
    {
        self.stack = self.snapshot.clone();
        self.outcome = Outcome::Aborted;
    }

    /// Commit, given the branch tip observed now. The branch must not have
    /// moved since the snapshot: if it did, the transaction aborts. On success
    /// the returned update moves the branch to the new stack's head.
    pub fn commit(&mut self, observed_tip: CommitId) -> (r: Result<RefUpdate, Error>)
        requires
            old(self).is_open(),
        ensures
            final(self).wf(),
            final(self).snapshot@ == old(self).snapshot@,
            r is Ok <==> observed_tip == old(self).snapshot.head,
            r matches Ok(u) ==> final(self).outcome == Outcome::Committed && final(self).stack@
                == old(self).stack@ && u.expected == old(self).snapshot.head && u.new_head
                == final(self).stack.head,
            r matches Err(e) ==> e matches Error::RefUpdateRace && final(self).outcome
                == Outcome::Aborted && final(self).stack@ == old(self).snapshot@,
    {
        if observed_tip != self.snapshot.head {
            self.abort();
            return Err(Error::RefUpdateRace);
        }
        self.outcome = Outcome::Committed;
        Ok(RefUpdate { expected: self.snapshot.head, new_head: self.stack.head })
    }

    /// End the transaction on a conflict, as its failure class says.
    fn fail_on_conflict(&mut self, conflicts: Vec<Conflict>)
        requires
            old(self).wf(),
        ensures
            final(self).wf(),
            final(self).snapshot@ == old(self).snapshot@,
            final(self).class == old(self).class,
            conflict_ending(*old(self), *final(self), conflicts@),
    {
        match self.class {
            FailureClass::Halt => {
                self.conflicts = conflicts;
                self.outcome = Outcome::Halted;
            },
            FailureClass::Abort => {
                self.stack = self.snapshot.clone();
                self.outcome = Outcome::Aborted;
            },
        }
    }
}

} // verus!
