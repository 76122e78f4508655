//! The state that a witness reports, and the query for an archived
//! certificate.

use crate::crypto::{zero_digest, Digest};
use crate::error::SequenceNumber;
use crate::publish::{PublishVote, Root};
use vstd::prelude::*;
use vstd::std_specs::cmp::PartialEqSpecImpl;

verus! {

/// The safety-critical state of a witness.
#[derive(Debug, Clone, Copy)]
pub struct State {
    /// The root that was certified last.
    pub root: Root,
    /// The sequence number that the witness is at.
    pub sequence_number: SequenceNumber,
    /// The vote that the witness has given at this sequence number, if any.
    pub lock: Option<PublishVote>,
}

impl Default for State {
    fn default() -> (initial: State)
        ensures
            initial == (State { root: zero_digest(), sequence_number: 0, lock: None }),
    {
        State { root: Digest::default(), sequence_number: 0, lock: None }
    }
}

/// Whether two locks are the same: both absent, or votes of one author for
/// one root at one sequence number.
pub open spec fn same_lock(first: Option<PublishVote>, second: Option<PublishVote>) -> bool {
    match (first, second) {
        (None, None) => true,
        (Some(a), Some(b)) => a.root@ == b.root@ && a.sequence_number == b.sequence_number
            && a.author@ == b.author@,
        _ => false,
    }
}

impl PartialEq for State {
    fn eq(&self, other: &State) -> (same: bool) {
        let locks = match (&self.lock, &other.lock) {
            (None, None) => true,
            (Some(a), Some(b)) => *a == *b,
            _ => false,
        };
        self.root == other.root && self.sequence_number == other.sequence_number && locks
    }
}

impl PartialEqSpecImpl for State {
    open spec fn obeys_eq_spec() -> bool {
        true
    }

    open spec fn eq_spec(&self, other: &State) -> bool {
        self.root@ == other.root@ && self.sequence_number == other.sequence_number && same_lock(
            self.lock,
            other.lock,
        )
    }
}

/// The request for the certificate of one sequence number.
#[derive(Debug, Clone, Copy, PartialEq, Eq, Structural)]
pub struct PublishCertificateQuery {
    /// The sequence number of the certificate asked for.
    pub sequence_number: SequenceNumber,
}

} // verus!
