//! Notifications, votes and certificates, and how each is verified.

use crate::committee::{
    lemma_power_of_member, lemma_stake_bounded, names_distinct, power_of, quorum_of, stake,
    total_power, Committee, Member,
};
use crate::crypto::{
    ed25519_rejection, ed25519_signature, hash_of, lemma_public_key_bytes, lemma_signature_bytes,
    Digest, KeyPair, PublicKey, Signature,
};
use crate::error::{MessageError, MessageErrorView, MessageResult, SequenceNumber};
use vstd::bytes::{spec_u64_to_le_bytes, u64_to_le_bytes};
use vstd::prelude::*;
use vstd::std_specs::cmp::PartialEqSpecImpl;

verus! {

/// The commitment to a state of the key directory.
pub type Root = Digest;

/// An audit proof of the key directory, as the bytes it was handed over in.
/// No witness reads it.
pub type Proof = Vec<u8>;

/// The bytes that are hashed and signed for a root at a sequence number: the
/// root, then the number with its low byte first.
pub open spec fn signed_bytes(root: Root, sequence_number: SequenceNumber) -> Seq<u8> {
    root@ + spec_u64_to_le_bytes(sequence_number)
}

/// The digest of a root at a sequence number.
pub open spec fn message_digest(root: Root, sequence_number: SequenceNumber) -> Seq<u8> {
    hash_of(signed_bytes(root, sequence_number))
}

/// Computes the digest of a root at a sequence number.
pub fn digest_of(root: &Root, sequence_number: SequenceNumber) -> (digest: Digest)
    ensures
        digest@ == message_digest(*root, sequence_number),
{
    let mut bytes: Vec<u8> = Vec::new();
    let mut i: usize = 0;
    while i < 32
        invariant
            0 <= i <= 32,
            bytes@ =~= root@.take(i as int),
        decreases 32 - i,
    {
        bytes.push(root.0[i]);
        i = i + 1;
    }
    assert(root@.take(32) =~= root@);
    let mut number = u64_to_le_bytes(sequence_number);
    bytes.append(&mut number);
    Digest::hash(bytes.as_slice())
}

/// A message that commits to a root at a sequence number.
pub trait PublishMessage {
    /// The root that the message commits to.
    spec fn committed_root(&self) -> Root;

    /// The sequence number that the message bears.
    spec fn committed_number(&self) -> SequenceNumber;

    /// The root that the message commits to.
    fn root(&self) -> (root: &Root)
        ensures
            *root == self.committed_root(),
    ;

    /// The sequence number that the message bears.
    fn sequence_number(&self) -> (number: SequenceNumber)
        ensures
            number == self.committed_number(),
    ;

    /// The digest of the message: that of its root and sequence number, and
    /// of nothing else in it.
    fn digest(&self) -> (digest: Digest)
        ensures
            digest@ == message_digest(self.committed_root(), self.committed_number()),
    ;
}

/// What became of a signature check: nothing, or an invalid signature with
/// the verifier's text.
pub open spec fn signature_fault(check: Result<(), String>) -> Option<MessageErrorView> {
    match check {
        Ok(_) => None,
        Err(text) => Some(MessageErrorView::InvalidSignature(text@)),
    }
}

/// Whether a result of verification says what `fault` says.
pub open spec fn reports(result: MessageResult<()>, fault: Option<MessageErrorView>) -> bool {
    match result {
        Ok(_) => fault is None,
        Err(error) => fault == Some(error@),
    }
}

/// Turns the verdict of a signature check into a result of verification.
pub fn signature_outcome(check: Result<(), String>) -> (result: MessageResult<()>)
    ensures
        reports(result, signature_fault(check)),
{
    match check {
        Ok(_) => Ok(()),
        Err(text) => Err(MessageError::InvalidSignature(text)),
    }
}

/// A notification with which the identity provider asks for votes.
#[derive(Debug)]
pub struct PublishNotification {
    /// The root committing to the new state.
    pub root: Root,
    /// The proof that the new state extends the one before.
    pub proof: Proof,
    /// The sequence number of this publication.
    pub sequence_number: SequenceNumber,
    /// The digest of the root and the sequence number.
    pub id: Digest,
    /// The identity provider's signature over `id`.
    pub signature: Signature,
}

/// A `PublishNotification`, with the proof as a sequence of bytes.
pub struct PublishNotificationView {
    pub root: Root,
    pub proof: Seq<u8>,
    pub sequence_number: SequenceNumber,
    pub id: Digest,
    pub signature: Signature,
}

impl View for PublishNotification {
    type V = PublishNotificationView;

    open spec fn view(&self) -> PublishNotificationView {
        PublishNotificationView {
            root: self.root,
            proof: self.proof@,
            sequence_number: self.sequence_number,
            id: self.id,
            signature: self.signature,
        }
    }
}

impl PublishMessage for PublishNotification {
    open spec fn committed_root(&self) -> Root {
        self.root
    }

    open spec fn committed_number(&self) -> SequenceNumber {
        self.sequence_number
    }

    fn root(&self) -> (root: &Root) {
        &self.root
    }

    fn sequence_number(&self) -> (number: SequenceNumber) {
        self.sequence_number
    }

    fn digest(&self) -> (digest: Digest) {
        digest_of(&self.root, self.sequence_number)
    }
}

/// What is wrong with a notification, if anything: its identifier is not
/// the digest of its root and number, or else the identity provider's
/// signature over the identifier does not verify.
pub open spec fn notification_fault(
    notification: PublishNotificationView,
    provider: PublicKey,
) -> Option<MessageErrorView> {
    if message_digest(notification.root, notification.sequence_number) != notification.id@ {
        Some(MessageErrorView::MalformedNotificationId(notification.id))
    } else {
        match ed25519_rejection(provider@, notification.id@, notification.signature@) {
            Some(text) => Some(MessageErrorView::InvalidSignature(text)),
            None => None,
        }
    }
}

impl PublishNotification {
    /// A notification for `root` at `sequence_number`, signed with the
    /// identity provider's `keypair`.
    pub fn new(root: Root, proof: Proof, sequence_number: SequenceNumber, keypair: &KeyPair) -> (made:
        PublishNotification)
        ensures
            made.root == root,
            made.proof@ == proof@,
            made.sequence_number == sequence_number,
            made.id@ == message_digest(root, sequence_number),
            made.signature@ == ed25519_signature(keypair.spec_seed(), made.id@),
    {
        let id = digest_of(&root, sequence_number);
        let signature = Signature::new(&id, keypair);
        PublishNotification { root, proof, sequence_number, id, signature }
    }

    /// What verification answers for a notification whose root and number
    /// hash to `digest`, and whose signature check over the identifier came
    /// out as `check`.
    pub fn verdict(&self, digest: &Digest, check: Result<(), String>) -> (result: MessageResult<()>)
        ensures
            digest@ != self.id@ ==> reports(
                result,
                Some(MessageErrorView::MalformedNotificationId(self.id)),
            ),
            digest@ == self.id@ ==> reports(result, signature_fault(check)),
    {
        if !(*digest == self.id) {
            return Err(MessageError::MalformedNotificationId(self.id));
        }
        signature_outcome(check)
    }

    /// Verifies the notification: its identifier, then the identity
    /// provider's signature. The proof is not read, and neither is
    /// `previous_root`.
    pub fn verify(&self, committee: &Committee, previous_root: &Root) -> (result: MessageResult<()>)
        ensures
            reports(result, notification_fault(self@, committee.provider().name)),
    {
        let digest = self.digest();
        let check = self.signature.verify(&self.id, &committee.identity_provider());
        self.verdict(&digest, check)
    }
}

impl Clone for PublishNotification {
    fn clone(&self) -> (copy: PublishNotification)
        ensures
            copy@ == self@,
    {
        PublishNotification {
            root: self.root,
            proof: vstd::slice::slice_to_vec(self.proof.as_slice()),
            sequence_number: self.sequence_number,
            id: self.id,
            signature: self.signature,
        }
    }
}

/// A witness's vote for a notification.
#[derive(Debug, Clone, Copy)]
pub struct PublishVote {
    /// The root of the notification.
    pub root: Root,
    /// The sequence number of the notification.
    pub sequence_number: SequenceNumber,
    /// The witness that votes.
    pub author: PublicKey,
    /// The author's signature over the digest of root and number.
    pub signature: Signature,
}

impl PartialEq for PublishVote {
    fn eq(&self, other: &PublishVote) -> (same: bool) {
        self.root == other.root && self.sequence_number == other.sequence_number && self.author
            == other.author
    }
}

impl PartialEqSpecImpl for PublishVote {
    open spec fn obeys_eq_spec() -> bool {
        true
    }

    open spec fn eq_spec(&self, other: &PublishVote) -> bool {
        self.root@ == other.root@ && self.sequence_number == other.sequence_number && self.author@
            == other.author@
    }
}

impl PublishMessage for PublishVote {
    open spec fn committed_root(&self) -> Root {
        self.root
    }

    open spec fn committed_number(&self) -> SequenceNumber {
        self.sequence_number
    }

    fn root(&self) -> (root: &Root) {
        &self.root
    }

    fn sequence_number(&self) -> (number: SequenceNumber) {
        self.sequence_number
    }

    fn digest(&self) -> (digest: Digest) {
        digest_of(&self.root, self.sequence_number)
    }
}

/// What is wrong with a vote, if anything: its author has no voting power,
/// or else the author's signature over the digest does not verify.
pub open spec fn vote_fault(vote: PublishVote, members: Seq<Member>) -> Option<MessageErrorView> {
    if power_of(members, vote.author) == 0 {
        Some(MessageErrorView::UnknownWitness(vote.author))
    } else {
        match ed25519_rejection(
            vote.author@,
            message_digest(vote.root, vote.sequence_number),
            vote.signature@,
        ) {
            Some(text) => Some(MessageErrorView::InvalidSignature(text)),
            None => None,
        }
    }
}

/// Whether `vote` is the vote of the holder of `keypair` for `root` at
/// `number`: it names them, and bears the holder's signature over their
/// digest.
pub open spec fn is_vote_by(
    vote: PublishVote,
    keypair: KeyPair,
    root: Root,
    number: SequenceNumber,
) -> bool {
    &&& vote.root == root
    &&& vote.sequence_number == number
    &&& vote.author == keypair.spec_public()
    &&& vote.signature@ == ed25519_signature(keypair.spec_seed(), message_digest(root, number))
}

/// The vote of the holder of `keypair` for `root` at `number`.
pub open spec fn vote_by(keypair: KeyPair, root: Root, number: SequenceNumber) -> PublishVote {
    choose|vote: PublishVote| is_vote_by(vote, keypair, root, number)
}

/// There is one such vote only.
pub proof fn lemma_vote_by(vote: PublishVote, keypair: KeyPair, root: Root, number: SequenceNumber)
    requires
        is_vote_by(vote, keypair, root, number),
    ensures
        vote == vote_by(keypair, root, number),
{
    lemma_signature_bytes(vote.signature, vote_by(keypair, root, number).signature);
}

impl PublishVote {
    /// The vote of the witness with `keypair` for `notification`.
    pub fn new(notification: &PublishNotification, keypair: &KeyPair) -> (vote: PublishVote)
        ensures
            is_vote_by(vote, *keypair, notification.root, notification.sequence_number),
            vote == vote_by(*keypair, notification.root, notification.sequence_number),
    {
        let digest = digest_of(&notification.root, notification.sequence_number);
        let vote = PublishVote {
            root: notification.root,
            sequence_number: notification.sequence_number,
            author: keypair.public(),
            signature: Signature::new(&digest, keypair),
        };
        proof {
            lemma_vote_by(vote, *keypair, notification.root, notification.sequence_number);
        }
        vote
    }

    /// What verification answers for a vote whose author has the voting
    /// power `power`, and whose signature check came out as `check`.
    pub fn verdict(&self, power: u32, check: Result<(), String>) -> (result: MessageResult<()>)
        ensures
            power == 0 ==> reports(result, Some(MessageErrorView::UnknownWitness(self.author))),
            power > 0 ==> reports(result, signature_fault(check)),
    {
        if power == 0 {
            return Err(MessageError::UnknownWitness(self.author));
        }
        signature_outcome(check)
    }

    /// Verifies the vote: its author's voting power, then the signature.
    pub fn verify(&self, committee: &Committee) -> (result: MessageResult<()>)
        ensures
            reports(result, vote_fault(*self, committee.members())),
    {
        let power = committee.voting_power(&self.author);
        let digest = self.digest();
        let check = self.signature.verify(&digest, &self.author);
        self.verdict(power, check)
    }
}

/// One entry of a certificate: a witness and its signature.
pub type Endorsement = (PublicKey, Signature);

/// The witnesses of a list of endorsements, in its order.
pub open spec fn authors_of(votes: Seq<Endorsement>) -> Seq<PublicKey> {
    Seq::new(votes.len(), |i: int| votes[i].0)
}

/// What is wrong with the author at position `at`, if anything: it stands
/// earlier in the list too, or else it has no voting power.
pub open spec fn author_fault(members: Seq<Member>, authors: Seq<PublicKey>, at: int) -> Option<
    MessageErrorView,
> {
    if authors.take(at).contains(authors[at]) {
        Some(MessageErrorView::WitnessReuse(authors[at]))
    } else if power_of(members, authors[at]) == 0 {
        Some(MessageErrorView::UnknownWitness(authors[at]))
    } else {
        None
    }
}

/// The fault of the first author among the first `upto` that has one.
pub open spec fn first_author_fault(
    members: Seq<Member>,
    authors: Seq<PublicKey>,
    upto: nat,
) -> Option<MessageErrorView>
    decreases upto,
{
    if upto == 0 {
        None
    } else {
        match first_author_fault(members, authors, (upto - 1) as nat) {
            Some(fault) => Some(fault),
            None => author_fault(members, authors, upto - 1),
        }
    }
}

/// What is wrong with the authors of a certificate, if anything: the first
/// author at fault decides; where none is, the authors together must weigh
/// a quorum.
pub open spec fn quorum_fault(members: Seq<Member>, authors: Seq<PublicKey>) -> Option<
    MessageErrorView,
> {
    match first_author_fault(members, authors, authors.len()) {
        Some(fault) => Some(fault),
        None => if stake(members, authors) >= quorum_of(total_power(members)) {
            None
        } else {
            Some(MessageErrorView::CertificateRequiresQuorum)
        },
    }
}

/// The first fault stays the first, however many more authors are read.
pub proof fn lemma_first_fault_stays(
    members: Seq<Member>,
    authors: Seq<PublicKey>,
    found: nat,
    upto: nat,
)
    requires
        found <= upto,
        first_author_fault(members, authors, found) is Some,
    ensures
        first_author_fault(members, authors, upto) == first_author_fault(members, authors, found),
    decreases upto,
{
    if found < upto {
        lemma_first_fault_stays(members, authors, found, (upto - 1) as nat);
    }
}

/// What a result of verification found wrong, if anything.
pub open spec fn fault_of(result: MessageResult<()>) -> Option<MessageErrorView> {
    match result {
        Ok(_) => None,
        Err(error) => Some(error@),
    }
}

/// Whether `fault` can be what verification finds wrong with a certificate
/// of these votes: the fault of its authors where they have one, else
/// nothing or an invalid signature.
pub open spec fn certificate_fault_fits(
    fault: Option<MessageErrorView>,
    members: Seq<Member>,
    votes: Seq<Endorsement>,
) -> bool {
    match quorum_fault(members, authors_of(votes)) {
        Some(found) => fault == Some(found),
        None => fault is None || fault matches Some(MessageErrorView::InvalidSignature(_)),
    }
}

/// No author among the first `upto` is at fault exactly if these authors
/// are distinct and each has voting power.
pub proof fn lemma_no_author_fault(members: Seq<Member>, authors: Seq<PublicKey>, upto: nat)
    requires
        upto <= authors.len(),
    ensures
        first_author_fault(members, authors, upto) is None <==> authors.take(
            upto as int,
        ).no_duplicates() && forall|i: int|
            0 <= i < upto ==> power_of(members, #[trigger] authors[i]) > 0,
    decreases upto,
{
    if upto > 0 {
        let shorter = authors.take(upto - 1);
        let longer = authors.take(upto as int);
        lemma_no_author_fault(members, authors, (upto - 1) as nat);
        assert(longer =~= shorter.push(authors[upto - 1]));
        if first_author_fault(members, authors, upto) is None {
            assert forall|i: int, j: int|
                0 <= i < longer.len() && 0 <= j < longer.len() && i != j implies longer[i]
                != longer[j] by {
                if i < upto - 1 && j < upto - 1 {
                    assert(shorter[i] != shorter[j]);
                } else {
                    let k = if i < j {
                        i
                    } else {
                        j
                    };
                    assert(shorter[k] == authors[k]);
                }
            }
        }
        if longer.no_duplicates() && forall|i: int|
            0 <= i < upto ==> power_of(members, #[trigger] authors[i]) > 0 {
            assert forall|i: int, j: int|
                0 <= i < shorter.len() && 0 <= j < shorter.len() && i != j implies shorter[i]
                != shorter[j] by {
                assert(longer[i] == shorter[i] && longer[j] == shorter[j]);
            }
            if shorter.contains(authors[upto - 1]) {
                let k = choose|k: int| 0 <= k < shorter.len() && shorter[k] == authors[upto - 1];
                assert(longer[k] == longer[upto - 1]);
            }
        }
    } else {
        assert(authors.take(0) =~= Seq::<PublicKey>::empty());
    }
}

/// A certificate: the votes of a quorum for one root at one sequence number.
#[derive(Debug)]
pub struct PublishCertificate {
    /// The root that is certified.
    pub root: Root,
    /// The sequence number at which it is certified.
    pub sequence_number: SequenceNumber,
    /// The witnesses that voted, each with its signature.
    pub votes: Vec<Endorsement>,
}

/// A `PublishCertificate`, with the votes as a sequence.
pub struct PublishCertificateView {
    pub root: Root,
    pub sequence_number: SequenceNumber,
    pub votes: Seq<Endorsement>,
}

impl View for PublishCertificate {
    type V = PublishCertificateView;

    open spec fn view(&self) -> PublishCertificateView {
        PublishCertificateView {
            root: self.root,
            sequence_number: self.sequence_number,
            votes: self.votes@,
        }
    }
}

impl PublishMessage for PublishCertificate {
    open spec fn committed_root(&self) -> Root {
        self.root
    }

    open spec fn committed_number(&self) -> SequenceNumber {
        self.sequence_number
    }

    fn root(&self) -> (root: &Root) {
        &self.root
    }

    fn sequence_number(&self) -> (number: SequenceNumber) {
        self.sequence_number
    }

    fn digest(&self) -> (digest: Digest) {
        digest_of(&self.root, self.sequence_number)
    }
}

/// Copies a list of endorsements.
pub fn copy_votes(votes: &Vec<Endorsement>) -> (copy: Vec<Endorsement>)
    ensures
        copy@ == votes@,
{
    let mut copy: Vec<Endorsement> = Vec::new();
    let mut i: usize = 0;
    while i < votes.len()
        invariant
            0 <= i <= votes@.len(),
            copy@ =~= votes@.take(i as int),
        decreases votes@.len() - i,
    {
        copy.push(votes[i]);
        i = i + 1;
    }
    assert(votes@.take(i as int) =~= votes@);
    copy
}

/// Whether `name` is the witness of one of the first `upto` endorsements.
pub fn voted_before(votes: &Vec<Endorsement>, upto: usize, name: &PublicKey) -> (found: bool)
    requires
        upto <= votes@.len(),
    ensures
        found == authors_of(votes@).take(upto as int).contains(*name),
{
    let ghost earlier = authors_of(votes@).take(upto as int);
    let mut j: usize = 0;
    while j < upto
        invariant
            0 <= j <= upto <= votes@.len(),
            earlier == authors_of(votes@).take(upto as int),
            forall|k: int| 0 <= k < j ==> earlier[k] != *name,
        decreases upto - j,
    {
        proof {
            lemma_public_key_bytes(votes@[j as int].0, *name);
        }
        if votes[j].0 == *name {
            assert(earlier[j as int] == *name);
            return true;
        }
        j = j + 1;
    }
    false
}

impl PublishCertificate {
    /// Checks the authors of the certificate against the committee: none
    /// twice, none without voting power, and together a quorum.
    pub fn check_quorum(&self, committee: &Committee) -> (result: MessageResult<()>)
        ensures
            reports(result, quorum_fault(committee.members(), authors_of(self.votes@))),
            result is Ok ==> {
                &&& authors_of(self.votes@).no_duplicates()
                &&& forall|i: int|
                    0 <= i < self.votes@.len() ==> power_of(
                        committee.members(),
                        #[trigger] authors_of(self.votes@)[i],
                    ) > 0
                &&& stake(committee.members(), authors_of(self.votes@)) >= quorum_of(
                    total_power(committee.members()),
                )
            },
    {
        let ghost members = committee.members();
        let ghost authors = authors_of(self.votes@);
        proof {
            use_type_invariant(committee);
            committee.lemma_valid();
            crate::committee::lemma_ascend_distinct(members);
            assert(authors.take(0) =~= Seq::<PublicKey>::empty());
        }
        let total = committee.total_voting_power();
        let mut weight: u32 = 0;
        let mut i: usize = 0;
        while i < self.votes.len()
            invariant
                0 <= i <= self.votes@.len(),
                members == committee.members(),
                authors == authors_of(self.votes@),
                names_distinct(members),
                total == total_power(members),
                first_author_fault(members, authors, i as nat) is None,
                weight == stake(members, authors.take(i as int)),
            decreases self.votes@.len() - i,
        {
            let name = self.votes[i].0;
            assert(name == authors[i as int]);
            if voted_before(&self.votes, i, &name) {
                proof {
                    lemma_first_fault_stays(members, authors, (i + 1) as nat, authors.len());
                }
                return Err(MessageError::WitnessReuse(name));
            }
            let power = committee.voting_power(&name);
            if power == 0 {
                proof {
                    lemma_first_fault_stays(members, authors, (i + 1) as nat, authors.len());
                }
                return Err(MessageError::UnknownWitness(name));
            }
            proof {
                let longer = authors.take(i + 1);
                assert(longer.drop_last() =~= authors.take(i as int));
                assert(longer.last() == name);
                lemma_no_author_fault(members, authors, (i + 1) as nat);
                lemma_stake_bounded(members, longer);
            }
            weight = weight + power;
            i = i + 1;
        }
        proof {
            assert(authors.take(i as int) =~= authors);
            lemma_no_author_fault(members, authors, authors.len());
        }
        if weight < committee.quorum_threshold() {
            return Err(MessageError::CertificateRequiresQuorum);
        }
        Ok(())
    }

    /// Verifies the certificate: its authors against the committee, then
    /// all signatures in one batch. Whether the batch passes is decided by
    /// the signature scheme alone.
    pub fn verify(&self, committee: &Committee) -> (result: MessageResult<()>)
        ensures
            certificate_fault_fits(fault_of(result), committee.members(), self.votes@),
    {
        match self.check_quorum(committee) {
            Ok(_) => {},
            Err(fault) => {
                return Err(fault);
            },
        }
        let digest = self.digest();
        let check = Signature::verify_batch(&digest, &self.votes);
        signature_outcome(check)
    }
}

impl Clone for PublishCertificate {
    fn clone(&self) -> (copy: PublishCertificate)
        ensures
            copy@ == self@,
    {
        PublishCertificate {
            root: self.root,
            sequence_number: self.sequence_number,
            votes: copy_votes(&self.votes),
        }
    }
}

/// Two messages with one root and one sequence number have one digest,
/// whatever else they hold: the proof of a notification plays no part.
pub proof fn lemma_digest_of_root_and_number(
    first: PublishNotificationView,
    second: PublishNotificationView,
)
    requires
        first.root == second.root,
        first.sequence_number == second.sequence_number,
    ensures
        message_digest(first.root, first.sequence_number) == message_digest(
            second.root,
            second.sequence_number,
        ),
{
}

/// A certificate whose authors pass the check holds votes of distinct
/// witnesses of the committee that together weigh a quorum.
pub proof fn lemma_certificate_totality(members: Seq<Member>, votes: Seq<Endorsement>)
    requires
        quorum_fault(members, authors_of(votes)) is None,
    ensures
        authors_of(votes).no_duplicates(),
        forall|i: int|
            0 <= i < votes.len() ==> crate::committee::is_member(members, (#[trigger] votes[i]).0),
        stake(members, authors_of(votes)) >= quorum_of(total_power(members)),
{
    let authors = authors_of(votes);
    lemma_no_author_fault(members, authors, authors.len());
    assert(authors.take(authors.len() as int) =~= authors);
    assert forall|i: int| 0 <= i < votes.len() implies crate::committee::is_member(
        members,
        (#[trigger] votes[i]).0,
    ) by {
        assert(authors[i] == votes[i].0);
        lemma_power_of_member(members, votes[i].0);
    }
}

} // verus!
