//! The aggregator: it gathers the witnesses' votes for one root until they
//! weigh a quorum, and then makes the certificate.

use crate::committee::{
    lemma_ascend_distinct, lemma_stake_bounded, power_of, quorum_of, stake, total_power, Committee,
    Member, VotingPower,
};
use crate::crypto::{ed25519_rejection, lemma_digest_bytes, lemma_public_key_bytes, PublicKey};
use crate::error::{IdpError, IdpErrorView, IdpResult, MessageError, MessageErrorView};
use crate::publish::{
    authors_of, copy_votes, lemma_no_author_fault, message_digest, quorum_fault, Endorsement,
    PublishCertificate, PublishCertificateView, PublishMessage, PublishVote, Root,
};
use vstd::prelude::*;

verus! {

/// What an aggregator holds, as plain values.
pub struct Tally {
    /// The root that is being certified.
    pub root: Root,
    /// The voting power gathered since the last certificate or reset.
    pub weight: VotingPower,
    /// The votes gathered, in the order in which they came.
    pub votes: Seq<Endorsement>,
    /// The witnesses that have voted, with or without a valid signature.
    pub used: Seq<PublicKey>,
}

/// What the aggregator answers to a vote, with errors and certificate seen
/// through their views.
pub open spec fn answered(result: IdpResult<Option<PublishCertificate>>) -> Result<
    Option<PublishCertificateView>,
    IdpErrorView,
> {
    match result {
        Ok(Some(certificate)) => Ok(Some(certificate@)),
        Ok(None) => Ok(None),
        Err(error) => Err(error@),
    }
}

/// Why a vote is turned away before its signature is looked at: it is for
/// another root, or else its author has no voting power, or else its author
/// has voted before.
pub open spec fn vote_refusal(tally: Tally, members: Seq<Member>, vote: PublishVote) -> Option<
    IdpErrorView,
> {
    if tally.root != vote.root {
        Some(IdpErrorView::UnexpectedVote { expected: tally.root, received: vote.root })
    } else if power_of(members, vote.author) == 0 {
        Some(IdpErrorView::MessageError(MessageErrorView::UnknownWitness(vote.author)))
    } else if tally.used.contains(vote.author) {
        Some(IdpErrorView::MessageError(MessageErrorView::WitnessReuse(vote.author)))
    } else {
        None
    }
}

/// The tally after a vote whose signature check found `rejection`. A vote
/// that is turned away leaves it as it is. Any other vote marks its author
/// as used. A vote with a valid signature is added, with its weight; where
/// the weight then makes a quorum, it starts again from zero.
pub open spec fn tally_after(
    tally: Tally,
    members: Seq<Member>,
    vote: PublishVote,
    rejection: Option<Seq<char>>,
) -> Tally {
    if vote_refusal(tally, members, vote) is Some {
        tally
    } else if rejection is Some {
        Tally {
            root: tally.root,
            weight: tally.weight,
            votes: tally.votes,
            used: tally.used.push(vote.author),
        }
    } else {
        let weight = tally.weight + power_of(members, vote.author);
        Tally {
            root: tally.root,
            weight: if weight >= quorum_of(total_power(members)) {
                0
            } else {
                weight as u32
            },
            votes: tally.votes.push((vote.author, vote.signature)),
            used: tally.used.push(vote.author),
        }
    }
}

/// The answer to a vote whose signature check found `rejection`: an error,
/// the certificate where the vote completes a quorum, or nothing yet.
pub open spec fn tally_answer(
    tally: Tally,
    members: Seq<Member>,
    vote: PublishVote,
    rejection: Option<Seq<char>>,
) -> Result<Option<PublishCertificateView>, IdpErrorView> {
    match vote_refusal(tally, members, vote) {
        Some(refusal) => Err(refusal),
        None => match rejection {
            Some(text) => Err(IdpErrorView::MessageError(MessageErrorView::InvalidSignature(text))),
            None => if tally.weight + power_of(members, vote.author) >= quorum_of(
                total_power(members),
            ) {
                Ok(
                    Some(
                        PublishCertificateView {
                            root: vote.root,
                            sequence_number: vote.sequence_number,
                            votes: tally.votes.push((vote.author, vote.signature)),
                        },
                    ),
                )
            } else {
                Ok(None)
            },
        },
    }
}

/// What a signature check rejected, as the verifier's text.
pub open spec fn rejection_of(check: Result<(), String>) -> Option<Seq<char>> {
    match check {
        Ok(_) => None,
        Err(text) => Some(text@),
    }
}

/// Whether the votes of a tally weigh a quorum: then its certificate has
/// been made.
pub open spec fn quorum_reached(tally: Tally, members: Seq<Member>) -> bool {
    stake(members, authors_of(tally.votes)) >= quorum_of(total_power(members))
}

/// The votes of a tally are votes of distinct witnesses with voting power,
/// each marked as used; and the weight is what the votes weigh, until they
/// make a quorum.
pub open spec fn tally_sound(tally: Tally, members: Seq<Member>) -> bool {
    &&& tally.used.no_duplicates()
    &&& authors_of(tally.votes).no_duplicates()
    &&& forall|i: int|
        0 <= i < tally.votes.len() ==> power_of(members, (#[trigger] tally.votes[i]).0) > 0
            && tally.used.contains(tally.votes[i].0)
    &&& !quorum_reached(tally, members) ==> tally.weight == stake(members, authors_of(tally.votes))
    &&& quorum_reached(tally, members) ==> tally.weight + quorum_of(total_power(members)) <= stake(
        members,
        authors_of(tally.votes),
    )
}

fn count_vote(
    weight: &mut VotingPower,
    votes: &mut Vec<Endorsement>,
    entry: Endorsement,
    power: VotingPower,
    quorum: VotingPower,
) -> (complete: bool)
    requires
        *old(weight) + power <= u32::MAX,
    ensures
        final(votes)@ == old(votes)@.push(entry),
        complete == (*old(weight) + power >= quorum),
        *final(weight) == (if complete {
            0
        } else {
            (*old(weight) + power) as u32
        }),
{
    votes.push(entry);
    let sum = *weight + power;
    if sum >= quorum {
        *weight = 0;
        true
    } else {
        *weight = sum;
        false
    }
}

fn holds(names: &Vec<PublicKey>, name: &PublicKey) -> (found: bool)
    ensures
        found == names@.contains(*name),
{
    let mut i: usize = 0;
    while i < names.len()
        invariant
            0 <= i <= names@.len(),
            forall|j: int| 0 <= j < i ==> names@[j] != *name,
        decreases names@.len() - i,
    {
        proof {
            lemma_public_key_bytes(names@[i as int], *name);
        }
        if names[i] == *name {
            return true;
        }
        i = i + 1;
    }
    false
}

proof fn lemma_vote_added(
    tally: Tally,
    members: Seq<Member>,
    vote: PublishVote,
)
    requires
        tally_sound(tally, members),
        crate::committee::names_distinct(members),
        vote_refusal(tally, members, vote) is None,
    ensures
        authors_of(tally.votes.push((vote.author, vote.signature))).no_duplicates(),
        stake(members, authors_of(tally.votes.push((vote.author, vote.signature)))) == stake(
            members,
            authors_of(tally.votes),
        ) + power_of(members, vote.author),
        stake(members, authors_of(tally.votes.push((vote.author, vote.signature))))
            <= total_power(members),
        tally.used.push(vote.author).no_duplicates(),
{
    let entry = (vote.author, vote.signature);
    let authors = authors_of(tally.votes);
    let longer = authors_of(tally.votes.push(entry));
    assert(longer =~= authors.push(vote.author));
    assert(longer.drop_last() =~= authors);
    assert forall|i: int, j: int|
        0 <= i < longer.len() && 0 <= j < longer.len() && i != j implies longer[i]
        != longer[j] by {
        if i < authors.len() && j < authors.len() {
            assert(authors[i] != authors[j]);
        } else {
            let k = if i < j {
                i
            } else {
                j
            };
            assert(authors[k] == tally.votes[k].0);
            assert(tally.used.contains(tally.votes[k].0));
        }
    }
    lemma_stake_bounded(members, longer);
    let used = tally.used.push(vote.author);
    assert forall|i: int, j: int| 0 <= i < used.len() && 0 <= j < used.len() && i != j implies used[i]
        != used[j] by {
        if i < tally.used.len() && j < tally.used.len() {
            assert(tally.used[i] != tally.used[j]);
        } else {
            let k = if i < j {
                i
            } else {
                j
            };
            assert(tally.used[k] == used[k]);
            assert(tally.used.contains(used[k]));
        }
    }
}

/// A sound tally stays sound, whatever vote comes in.
pub proof fn lemma_tally_stays_sound(
    tally: Tally,
    members: Seq<Member>,
    vote: PublishVote,
    rejection: Option<Seq<char>>,
)
    requires
        tally_sound(tally, members),
        crate::committee::names_distinct(members),
        total_power(members) <= u32::MAX,
    ensures
        tally_sound(tally_after(tally, members, vote, rejection), members),
{
    if vote_refusal(tally, members, vote) is None {
        lemma_vote_added(tally, members, vote);
        let after = tally_after(tally, members, vote, rejection);
        assert forall|i: int| 0 <= i < tally.votes.len() implies after.used.contains(
            (#[trigger] tally.votes[i]).0,
        ) by {
            let k = choose|k: int| 0 <= k < tally.used.len() && tally.used[k] == tally.votes[i].0;
            assert(after.used[k] == tally.votes[i].0);
        }
        assert(after.used[tally.used.len() as int] == vote.author);
        if rejection is None {
            assert forall|i: int| 0 <= i < after.votes.len() implies power_of(
                members,
                (#[trigger] after.votes[i]).0,
            ) > 0 && after.used.contains(after.votes[i].0) by {
                if i < tally.votes.len() {
                    assert(after.votes[i] == tally.votes[i]);
                }
            }
        }
    }
}

/// Gathers votes for one root into a certificate.
pub struct Aggregator {
    committee: Committee,
    root: Root,
    weight: VotingPower,
    votes: Vec<Endorsement>,
    used: Vec<PublicKey>,
}

impl View for Aggregator {
    type V = Tally;

    closed spec fn view(&self) -> Tally {
        Tally { root: self.root, weight: self.weight, votes: self.votes@, used: self.used@ }
    }
}

impl Aggregator {
    /// The committee whose votes are gathered.
    pub closed spec fn spec_committee(&self) -> Committee {
        self.committee
    }

    /// The committee is valid, and the tally is sound for it. Every
    /// aggregator is made so, and stays so.
    pub open spec fn wf(&self) -> bool {
        &&& self.spec_committee().valid()
        &&& tally_sound(self@, self.spec_committee().members())
    }

    /// An aggregator for `root`, with no votes yet.
    pub fn new(committee: Committee, root: Root) -> (aggregator: Aggregator)
        ensures
            aggregator.wf(),
            aggregator.spec_committee() == committee,
            aggregator@ == (Tally { root, weight: 0, votes: Seq::empty(), used: Seq::empty() }),
    {
        proof {
            use_type_invariant(&committee);
            committee.lemma_valid();
            assert(authors_of(Seq::<Endorsement>::empty()) =~= Seq::<PublicKey>::empty());
        }
        Aggregator { committee, root, weight: 0, votes: Vec::new(), used: Vec::new() }
    }

    /// Starts over for `root`: no weight, no votes, no witness used.
    pub fn reset(&mut self, root: Root)
        ensures
            final(self).wf(),
            final(self).spec_committee() == old(self).spec_committee(),
            final(self)@ == (Tally { root, weight: 0, votes: Seq::empty(), used: Seq::empty() }),
    {
        proof {
            use_type_invariant(&self.committee);
            self.committee.lemma_valid();
            assert(authors_of(Seq::<Endorsement>::empty()) =~= Seq::<PublicKey>::empty());
        }
        self.root = root;
        self.weight = 0;
        self.votes.clear();
        self.used.clear();
    }

    /// Looks at all of a vote but its signature. Where nothing is wrong, the
    /// result is the voting power of its author.
    pub fn precheck(&self, vote: &PublishVote) -> (power: IdpResult<VotingPower>)
        ensures
            match vote_refusal(self@, self.spec_committee().members(), *vote) {
                Some(refusal) => power matches Err(error) && error@ == refusal,
                None => power == Ok::<VotingPower, IdpError>(
                    power_of(self.spec_committee().members(), vote.author) as u32,
                ),
            },
    {
        proof {
            lemma_digest_bytes(self.root, vote.root);
            crate::committee::lemma_power_of_bounded(self.committee.members(), vote.author);
            use_type_invariant(&self.committee);
            self.committee.lemma_valid();
        }
        if !(self.root == vote.root) {
            return Err(IdpError::UnexpectedVote { expected: self.root, received: vote.root });
        }
        let power = self.committee.voting_power(&vote.author);
        if power == 0 {
            return Err(IdpError::MessageError(MessageError::UnknownWitness(vote.author)));
        }
        if holds(&self.used, &vote.author) {
            return Err(IdpError::MessageError(MessageError::WitnessReuse(vote.author)));
        }
        Ok(power)
    }

    /// Takes in a vote whose signature check came out as `check`.
    pub fn append_checked(&mut self, vote: PublishVote, check: Result<(), String>) -> (result:
        IdpResult<Option<PublishCertificate>>)
        requires
            old(self).wf(),
        ensures
            final(self).wf(),
            answered(result) == tally_answer(
                old(self)@,
                old(self).spec_committee().members(),
                vote,
                rejection_of(check),
            ),
            final(self)@ == tally_after(
                old(self)@,
                old(self).spec_committee().members(),
                vote,
                rejection_of(check),
            ),
            final(self).spec_committee() == old(self).spec_committee(),
            result matches Ok(Some(certificate)) ==> quorum_fault(
                old(self).spec_committee().members(),
                authors_of(certificate.votes@),
            ) is None,
            quorum_reached(old(self)@, old(self).spec_committee().members()) ==> !(result matches Ok(
                Some(_),
            )),
    {
        let power = match self.precheck(&vote) {
            Ok(power) => power,
            Err(refusal) => {
                return Err(refusal);
            },
        };
        let ghost members = self.committee.members();
        let ghost before = self@;
        proof {
            use_type_invariant(&self.committee);
            self.committee.lemma_valid();
            lemma_ascend_distinct(members);
            lemma_vote_added(before, members, vote);
            lemma_tally_stays_sound(before, members, vote, rejection_of(check));
        }
        self.used.push(vote.author);
        match check {
            Ok(_) => {},
            Err(text) => {
                return Err(IdpError::MessageError(MessageError::InvalidSignature(text)));
            },
        }
        let quorum = self.committee.quorum_threshold();
        let complete = count_vote(
            &mut self.weight,
            &mut self.votes,
            (vote.author, vote.signature),
            power,
            quorum,
        );
        if complete {
            let certificate = PublishCertificate {
                root: vote.root,
                sequence_number: vote.sequence_number,
                votes: copy_votes(&self.votes),
            };
            proof {
                let authors = authors_of(certificate.votes@);
                assert(authors.take(authors.len() as int) =~= authors);
                assert forall|i: int| 0 <= i < authors.len() implies power_of(
                    members,
                    #[trigger] authors[i],
                ) > 0 by {
                    if i < before.votes.len() {
                        assert(authors[i] == before.votes[i].0);
                    }
                }
                lemma_no_author_fault(members, authors, authors.len());
            }
            Ok(Some(certificate))
        } else {
            Ok(None)
        }
    }

    /// Takes in a vote: checks it, marks its author as used, verifies its
    /// signature and adds it. Where it completes a quorum, the result is
    /// the certificate of all votes gathered.
    pub fn append(&mut self, vote: PublishVote) -> (result: IdpResult<Option<PublishCertificate>>)
        requires
            old(self).wf(),
        ensures
            final(self).wf(),
            answered(result) == tally_answer(
                old(self)@,
                old(self).spec_committee().members(),
                vote,
                ed25519_rejection(
                    vote.author@,
                    message_digest(vote.root, vote.sequence_number),
                    vote.signature@,
                ),
            ),
            final(self)@ == tally_after(
                old(self)@,
                old(self).spec_committee().members(),
                vote,
                ed25519_rejection(
                    vote.author@,
                    message_digest(vote.root, vote.sequence_number),
                    vote.signature@,
                ),
            ),
            final(self).spec_committee() == old(self).spec_committee(),
            result matches Ok(Some(certificate)) ==> quorum_fault(
                old(self).spec_committee().members(),
                authors_of(certificate.votes@),
            ) is None,
            quorum_reached(old(self)@, old(self).spec_committee().members()) ==> !(result matches Ok(
                Some(_),
            )),
    {
        match self.precheck(&vote) {
            Ok(_) => {},
            Err(refusal) => {
                return Err(refusal);
            },
        }
        let digest = vote.digest();
        let check = vote.signature.verify(&digest, &vote.author);
        self.append_checked(vote, check)
    }
}

} // verus!
