//! The synchronizer: it asks the witnesses for their state, and waits until
//! a quorum has answered.

use crate::committee::{quorum_of, stake, total_power, Committee, Member};
use crate::crypto::PublicKey;
use crate::message::{request_bytes, IdPToWitnessMessage, IdPToWitnessMessageView};
use vstd::prelude::*;

verus! {

/// Whether the first `count` of `names` weigh a quorum.
pub open spec fn quorum_among(members: Seq<Member>, names: Seq<PublicKey>, count: int) -> bool {
    stake(members, names.take(count)) >= quorum_of(total_power(members))
}

/// Asks the witnesses for their state.
pub struct Synchronizer {
    committee: Committee,
}

impl Synchronizer {
    /// The committee whose witnesses are asked.
    pub closed spec fn spec_committee(&self) -> Committee {
        self.committee
    }

    /// A synchronizer for `committee`.
    pub fn new(committee: Committee) -> (synchronizer: Synchronizer)
        ensures
            synchronizer.spec_committee() == committee,
    {
        Synchronizer { committee }
    }

    /// The query for a witness's state, in its wire format.
    pub fn state_query() -> (bytes: Vec<u8>)
        ensures
            bytes@ == request_bytes(IdPToWitnessMessageView::StateQuery),
    {
        IdPToWitnessMessage::StateQuery.serialize()
    }

    /// After how many of the answers, taken in their order, the witnesses
    /// that gave them weigh a quorum: the least such number. There is none
    /// where all of them together weigh less. A witness that answers twice
    /// counts twice.
    pub fn answers_for_quorum(&self, answered: &Vec<PublicKey>) -> (enough: Option<usize>)
        ensures
            match enough {
                Some(count) => {
                    &&& 1 <= count <= answered@.len()
                    &&& quorum_among(self.spec_committee().members(), answered@, count as int)
                    &&& forall|fewer: int|
                        0 <= fewer < count ==> !#[trigger] quorum_among(
                            self.spec_committee().members(),
                            answered@,
                            fewer,
                        )
                },
                None => forall|fewer: int|
                    0 <= fewer <= answered@.len() ==> !#[trigger] quorum_among(
                        self.spec_committee().members(),
                        answered@,
                        fewer,
                    ),
            },
    {
        let ghost members = self.committee.members();
        let quorum = self.committee.quorum_threshold() as u64;
        let mut weight: u64 = 0;
        let mut i: usize = 0;
        proof {
            assert(answered@.take(0) =~= Seq::<PublicKey>::empty());
        }
        while i < answered.len()
            invariant
                0 <= i <= answered@.len(),
                members == self.spec_committee().members(),
                quorum == quorum_of(total_power(members)),
                quorum <= u32::MAX,
                weight == stake(members, answered@.take(i as int)),
                weight < quorum,
                forall|fewer: int|
                    0 <= fewer <= i ==> !#[trigger] quorum_among(members, answered@, fewer),
            decreases answered@.len() - i,
        {
            let power = self.committee.voting_power(&answered[i]);
            proof {
                let longer = answered@.take(i + 1);
                assert(longer.drop_last() =~= answered@.take(i as int));
                assert(longer.last() == answered@[i as int]);
            }
            weight = weight + power as u64;
            i = i + 1;
            if weight >= quorum {
                return Some(i);
            }
        }
        None
    }
}

} // verus!
