use vstd::prelude::*;

verus! {

/// Why a text could not be read as a patch name.
#[derive(Clone, Copy, Debug, PartialEq, Eq, Structural)]
pub enum NameError {
    Empty,
    InvalidChar,
    LeadingDot,
    TrailingDot,
    DoubleDot,
}

/// Why a range expression could not be resolved.
#[derive(Clone, Copy, Debug, PartialEq, Eq, Structural)]
pub enum RangeError {
    /// The two endpoints lie in different lists (applied and unapplied).
    MixedLists,
    /// The first endpoint comes after the second in stack order.
    Reversed,
    /// A new order names no patch.
    EmptyOrder,
    /// A new order names patches that are not one contiguous applied block.
    NotContiguous,
    /// A new order names one patch twice.
    RepeatedName,
}

/// Why a path pattern was refused.
#[derive(Clone, Copy, Debug, PartialEq, Eq, Structural)]
pub enum PathSpecError {
    EmptyPattern,
    AbsolutePattern,
}

/// Failures of the stack engine, one variant per condition, carrying the
/// offending value where there is one.
#[derive(Debug, PartialEq, Eq)]
pub enum Error {
    PatchName(NameError),
    PatchRange(RangeError),
    PathSpec(PathSpecError),
    GitCommand(String, String),
    PatchAlreadyExists(String),
    PatchDoesNotExist(String),
    PatchAlreadyApplied(String),
    PatchNotApplied(String),
    HeadDetached,
    HeadNotBranch(String),
    UnbornBranch(String),
    BranchNotFound(String),
    InvalidBranchName(String),
    InvalidRevision(String),
    RevisionNotFound(String),
    StackNotInitialized(String),
    StackAlreadyInitialized(String),
    StackMetadataNotFound,
    MalformedMetadata,
    NonUtf8BranchName(String),
    NonUtf8Argument(String, String),
    NonUtf8File(String),
    NonUtf8PatchDescription,
    NonUtf8Signature(String),
    NonUtf8AliasName(String, String),
    NonUtf8AliasValue(String, String),
    NonUtf8Message(String),
    BadAlias(String, String),
    RecursiveAlias(String),
    ExecuteAlias(String, String, String),
    MissingSignature(String),
    ParsePatchDescription(String),
    OutstandingConflicts,
    InvalidNameEmail(String),
    InvalidDate(String, String),
    EditorFail(String),
    Hook(String, String),
    StackTopHeadMismatch,
    DirtyIndex,
    DirtyWorktree,
    ActiveRepositoryState(String),
    TransactionAborted(String),
    TransactionHalt(String),
    TransactionClosed,
    NoAppliedPatches,
    NotEnoughPatchesApplied,
    NoUnappliedPatches,
    PatchesStillApplied,
    CheckoutConflicts(String),
    RefUpdateRace,
    Generic(String),
}

} // verus!
