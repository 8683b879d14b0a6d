use vstd::prelude::*;
use crate::error::Error;

verus! {

/// The in-progress operation that the underlying repository reports.
#[derive(Clone, Copy, Debug, PartialEq, Eq, Structural)]
pub enum RepositoryState {
    Clean,
    Merge,
    Revert,
    RevertSequence,
    CherryPick,
    CherryPickSequence,
    Bisect,
    Rebase,
    RebaseInteractive,
    RebaseMerge,
    ApplyMailbox,
    ApplyMailboxOrRebase,
}

/// The human label of each repository state.
pub open spec fn state_label(state: RepositoryState) -> Seq<char> {
    match state {
        RepositoryState::Clean => "clean"@,
        RepositoryState::Merge => "merge"@,
        RepositoryState::Revert | RepositoryState::RevertSequence => "revert"@,
        RepositoryState::CherryPick | RepositoryState::CherryPickSequence => "cherry-pick"@,
        RepositoryState::Bisect => "bisect"@,
        RepositoryState::Rebase => "rebase"@,
        RepositoryState::RebaseInteractive => "interactive rebase"@,
        RepositoryState::RebaseMerge => "rebase merge"@,
        RepositoryState::ApplyMailbox => "apply mailbox"@,
        RepositoryState::ApplyMailboxOrRebase => "rebase or apply mailbox"@,
    }
}

pub fn repo_state_to_str(state: RepositoryState) -> (r: &'static str)
    ensures
        r@ == state_label(state),
{
    match state {
        RepositoryState::Clean => "clean",
        RepositoryState::Merge => "merge",
        RepositoryState::Revert | RepositoryState::RevertSequence => "revert",
        RepositoryState::CherryPick | RepositoryState::CherryPickSequence => "cherry-pick",
        RepositoryState::Bisect => "bisect",
        RepositoryState::Rebase => "rebase",
        RepositoryState::RebaseInteractive => "interactive rebase",
        RepositoryState::RebaseMerge => "rebase merge",
        RepositoryState::ApplyMailbox => "apply mailbox",
        RepositoryState::ApplyMailboxOrRebase => "rebase or apply mailbox",
    }
}

} // verus!

verus! {

/// Whether a transaction may open with the repository in `state`: only a
/// clean repository lets one in, unless the caller resumes that very state.
pub open spec fn state_admits(state: RepositoryState, resuming: Option<RepositoryState>) -> bool {
    state == RepositoryState::Clean || resuming == Some(state)
}

/// Gate a new transaction on the repository state; the error names the
/// blocking state by its label.
pub fn check_repository_state(state: RepositoryState, resuming: Option<RepositoryState>) -> (r:
    Result<(), Error>)
    ensures
        r is Ok <==> state_admits(state, resuming),
        r matches Err(e) ==> e matches Error::ActiveRepositoryState(label) && label@ == state_label(
            state,
        ),
{
    let admitted = match resuming {
        Some(s) => s == state,
        None => false,
    };
    if state == RepositoryState::Clean || admitted {
        Ok(())
    } else {
        Err(Error::ActiveRepositoryState(repo_state_to_str(state).to_owned()))
    }
}

} // verus!
