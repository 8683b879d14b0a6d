//! A stack of named patches over a branch, and the transaction engine that
//! changes it: every change either commits as a whole, rolls back to the
//! snapshot it started from, or halts on a conflict with its work kept.

pub mod alias;
pub mod error;
pub mod pathspec;
pub mod patchname;
pub mod patchrange;
pub mod repo_state;
pub mod stack;
pub mod transaction;
