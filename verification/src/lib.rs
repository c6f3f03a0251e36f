//! A batch action engine for a command-line tool that mutates on-chain
//! accounts: it applies one named mutation to a list of target accounts
//! under a rate limit, a bounded retry policy, and a persisted, resumable
//! progress cache.
use vstd::prelude::*;

pub mod actions;
pub mod cache;
pub mod limiter;
pub mod loader;
pub mod outcome;
pub mod retry;
pub mod runner;

verus! {

/// An error that aborts a batch run before any work starts, or the
/// classified failure of one target's operation.
#[derive(Debug)]
pub enum EngineError {
    /// Malformed or empty target list or configuration.
    InvalidInput(String),
    /// The cache file exists but cannot be parsed.
    CacheCorrupt(String),
    /// One target's operation failed after exhausting retries:
    /// the target identifier and a human-readable reason.
    ActionFailed(String, String),
}

impl EngineError {
    /// True exactly when the error aborts a whole run rather than one target.
    pub fn is_fatal(&self) -> (r: bool)
        ensures
            r == !(self is ActionFailed),
    {
        match self {
            EngineError::InvalidInput(_) => true,
            EngineError::CacheCorrupt(_) => true,
            EngineError::ActionFailed(_, _) => false,
        }
    }
}

} // verus!
