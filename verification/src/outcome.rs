//! The settled result of one target's operation, and the persisted record of it.
use vstd::prelude::*;

verus! {

/// The settled result of one target's operation: either a receipt (for
/// this tool, a transaction signature) or a human-readable failure reason.
/// The reason always travels with the target identifier in reports, so it
/// can stand alone; here it is only the text.
pub enum Outcome {
    Success(String),
    Failure(String),
}

/// Mathematical model of an [`Outcome`].
pub enum OutcomeV {
    Success(Seq<char>),
    Failure(Seq<char>),
}

impl View for Outcome {
    type V = OutcomeV;

    open spec fn view(&self) -> OutcomeV {
        match self {
            Outcome::Success(r) => OutcomeV::Success(r@),
            Outcome::Failure(r) => OutcomeV::Failure(r@),
        }
    }
}

impl Clone for Outcome {
    fn clone(&self) -> (r: Self)
        ensures
            r == *self,
    {
        match self {
            Outcome::Success(r) => Outcome::Success(r.clone()),
            Outcome::Failure(r) => Outcome::Failure(r.clone()),
        }
    }
}

impl Outcome {
    /// True exactly when the operation succeeded.
    pub fn is_success(&self) -> (r: bool)
        ensures
            r == self@ is Success,
    {
        match self {
            Outcome::Success(_) => true,
            Outcome::Failure(_) => false,
        }
    }
}

/// One persisted record: a target identifier, the last outcome recorded for
/// it, and the action-specific payload (if any) that produced that entry.
/// A later record for the same target replaces the earlier one.
pub struct CacheEntry {
    pub target: String,
    pub outcome: Outcome,
    pub new_value: Option<String>,
}

/// Mathematical model of a [`CacheEntry`].
pub struct CacheEntryV {
    pub target: Seq<char>,
    pub outcome: OutcomeV,
    pub new_value: Option<Seq<char>>,
}

impl View for CacheEntry {
    type V = CacheEntryV;

    open spec fn view(&self) -> CacheEntryV {
        CacheEntryV {
            target: self.target@,
            outcome: self.outcome@,
            new_value: match self.new_value {
                Some(v) => Some(v@),
                None => None,
            },
        }
    }
}

impl Clone for CacheEntry {
    fn clone(&self) -> (r: Self)
        ensures
            r == *self,
    {
        CacheEntry {
            target: self.target.clone(),
            outcome: self.outcome.clone(),
            new_value: match &self.new_value {
                Some(v) => Some(v.clone()),
                None => None,
            },
        }
    }
}

} // verus!
