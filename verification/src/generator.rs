//! Makers of valid notifications and certificates in their wire format, for
//! load tests of witnesses.

use crate::committee::{quorum_of, total_power, Committee};
use crate::crypto::{ed25519_signature, KeyPair};
use crate::message::{request_bytes, IdPToWitnessMessage, IdPToWitnessMessageView};
use crate::publish::{
    message_digest, Endorsement, Proof, PublishCertificate, PublishCertificateView,
    PublishNotification, PublishNotificationView, PublishVote, Root,
};
use vstd::bytes::{spec_u64_to_le_bytes, u64_to_le_bytes};
use vstd::prelude::*;

verus! {

/// Makes notifications for one root and one proof at any sequence number.
pub struct NotificationGenerator {
    keypair: KeyPair,
    root: Root,
    proof: Proof,
}

impl NotificationGenerator {
    /// The key pair that signs.
    pub closed spec fn spec_keypair(&self) -> KeyPair {
        self.keypair
    }

    /// The root of every notification made.
    pub closed spec fn spec_root(&self) -> Root {
        self.root
    }

    /// The proof of every notification made.
    pub closed spec fn spec_proof(&self) -> Seq<u8> {
        self.proof@
    }

    /// A generator that signs with `keypair`.
    pub fn new(keypair: KeyPair, root: Root, proof: Proof) -> (generator: NotificationGenerator)
        ensures
            generator.spec_keypair() == keypair,
            generator.spec_root() == root,
            generator.spec_proof() == proof@,
    {
        NotificationGenerator { keypair, root, proof }
    }

    /// The message that carries the notification at `sequence_number`, in
    /// its wire format.
    pub fn make_notification(&self, sequence_number: u64) -> (bytes: Vec<u8>)
        ensures
            exists|notification: PublishNotificationView|
                {
                    &&& bytes@ == #[trigger] request_bytes(
                        IdPToWitnessMessageView::PublishNotification(notification),
                    )
                    &&& notification.root == self.spec_root()
                    &&& notification.proof == self.spec_proof()
                    &&& notification.sequence_number == sequence_number
                    &&& notification.id@ == message_digest(self.spec_root(), sequence_number)
                    &&& notification.signature@ == ed25519_signature(
                        self.spec_keypair().spec_seed(),
                        notification.id@,
                    )
                },
    {
        let proof = vstd::slice::slice_to_vec(self.proof.as_slice());
        let notification = PublishNotification::new(self.root, proof, sequence_number, &self.keypair);
        let message = IdPToWitnessMessage::PublishNotification(notification);
        let bytes = message.serialize();
        proof {
            assert(bytes@ == request_bytes(
                IdPToWitnessMessageView::PublishNotification(notification@),
            ));
        }
        bytes
    }
}

/// The endorsements that votes give: author and signature of each, in
/// their order.
pub open spec fn endorsements_of(votes: Seq<PublishVote>) -> Seq<Endorsement> {
    Seq::new(votes.len(), |i: int| (votes[i].author, votes[i].signature))
}

/// Makes a certificate of as many votes as the quorum threshold counts,
/// whatever their weight.
pub struct CertificateGenerator {
    committee: Committee,
    votes: Vec<PublishVote>,
}

impl CertificateGenerator {
    /// The votes gathered.
    pub closed spec fn spec_votes(&self) -> Seq<PublishVote> {
        self.votes@
    }

    /// The committee whose quorum threshold is counted to.
    pub closed spec fn spec_committee(&self) -> Committee {
        self.committee
    }

    /// The committee whose quorum threshold is counted to.
    pub fn committee(&self) -> (committee: &Committee)
        ensures
            *committee == self.spec_committee(),
    {
        &self.committee
    }

    /// A generator without votes.
    pub fn new(committee: Committee) -> (generator: CertificateGenerator)
        ensures
            generator.spec_committee() == committee,
            generator.spec_votes() == Seq::<PublishVote>::empty(),
    {
        CertificateGenerator { committee, votes: Vec::new() }
    }

    /// Forgets the votes gathered.
    pub fn clear(&mut self)
        ensures
            final(self).spec_committee() == old(self).spec_committee(),
            final(self).spec_votes() == Seq::<PublishVote>::empty(),
    {
        self.votes.clear();
    }

    /// Takes in a vote. Once there are as many votes as the quorum
    /// threshold counts, the result is the message that carries their
    /// certificate, in its wire format, for the root and sequence number of
    /// the first of them; the generator then starts over.
    pub fn try_make_certificate(&mut self, vote: PublishVote) -> (bytes: Option<Vec<u8>>)
        ensures
            final(self).spec_committee() == old(self).spec_committee(),
            old(self).spec_votes().len() + 1 < quorum_of(
                total_power(old(self).spec_committee().members()),
            ) ==> bytes is None && final(self).spec_votes() == old(self).spec_votes().push(vote),
            old(self).spec_votes().len() + 1 >= quorum_of(
                total_power(old(self).spec_committee().members()),
            ) ==> {
                &&& bytes matches Some(made)
                &&& made@ == request_bytes(
                    IdPToWitnessMessageView::PublishCertificate(
                        PublishCertificateView {
                            root: old(self).spec_votes().push(vote)[0].root,
                            sequence_number: old(self).spec_votes().push(vote)[0].sequence_number,
                            votes: endorsements_of(old(self).spec_votes().push(vote)),
                        },
                    ),
                )
                &&& final(self).spec_votes() == Seq::<PublishVote>::empty()
            },
    {
        self.votes.push(vote);
        let ghost all = self.votes@;
        let quorum = self.committee.quorum_threshold();
        if self.votes.len() < quorum as usize {
            return None;
        }
        let mut votes: Vec<Endorsement> = Vec::new();
        let mut i: usize = 0;
        while i < self.votes.len()
            invariant
                0 <= i <= self.votes@.len(),
                self.votes@ == all,
                votes@ =~= endorsements_of(all).take(i as int),
            decreases self.votes@.len() - i,
        {
            votes.push((self.votes[i].author, self.votes[i].signature));
            i = i + 1;
        }
        proof {
            assert(endorsements_of(all).take(i as int) =~= endorsements_of(all));
        }
        let certificate = PublishCertificate {
            root: self.votes[0].root,
            sequence_number: self.votes[0].sequence_number,
            votes,
        };
        self.votes.clear();
        Some(IdPToWitnessMessage::PublishCertificate(certificate).serialize())
    }
}

/// The bytes of a number, the high byte first.
pub open spec fn high_first_bytes(number: u64) -> Seq<u8> {
    spec_u64_to_le_bytes(number).reverse()
}

fn high_first(number: u64) -> (bytes: Vec<u8>)
    ensures
        bytes@ == high_first_bytes(number),
{
    let low_first = u64_to_le_bytes(number);
    let mut bytes: Vec<u8> = Vec::new();
    let mut i: usize = 0;
    while i < 8
        invariant
            0 <= i <= 8,
            low_first@.len() == 8,
            bytes@.len() == i,
            forall|j: int| 0 <= j < i ==> bytes@[j] == low_first@[7 - j],
        decreases 8 - i,
    {
        bytes.push(low_first[7 - i]);
        i = i + 1;
    }
    assert(bytes@ =~= low_first@.reverse());
    bytes
}

/// As many key entries as asked for: the label and the value of the i-th
/// are both the number i in eight bytes, the high byte first.
pub fn generate_key_entries(num_entries: u64) -> (entries: Vec<(Vec<u8>, Vec<u8>)>)
    ensures
        entries@.len() == num_entries,
        forall|i: int|
            0 <= i < num_entries ==> (#[trigger] entries@[i]).0@ == high_first_bytes(i as u64)
                && entries@[i].1@ == high_first_bytes(i as u64),
{
    let mut entries: Vec<(Vec<u8>, Vec<u8>)> = Vec::new();
    let mut i: u64 = 0;
    while i < num_entries
        invariant
            0 <= i <= num_entries,
            entries@.len() == i,
            forall|j: int|
                0 <= j < i ==> (#[trigger] entries@[j]).0@ == high_first_bytes(j as u64)
                    && entries@[j].1@ == high_first_bytes(j as u64),
        decreases num_entries - i,
    {
        entries.push((high_first(i), high_first(i)));
        i = i + 1;
    }
    entries
}

} // verus!
