//! The publisher: it stores and broadcasts each notification, gathers the
//! witnesses' votes, and broadcasts the certificate once a quorum has
//! voted.

use crate::aggregator::{tally_after, tally_answer, Aggregator, Tally};
use crate::committee::{Committee, Member};
use crate::crypto::{ed25519_rejection, Digest, PublicKey};
use crate::error::{IdpError, IdpErrorView, IdpResult, WitnessError, WitnessErrorView};
use crate::message::{
    parse_reply, request_bytes, IdPToWitnessMessage, IdPToWitnessMessageView, WitnessToIdPMessage,
    WitnessToIdPMessageView,
};
use crate::publish::{message_digest, PublishCertificateView, PublishNotification, PublishVote};
use crate::storage::{notification_record, notification_write, StorageWrite};
use vstd::prelude::*;

verus! {

/// What the identity provider makes of a witness's answer to a
/// notification: the vote (`Some`), that the witness lags behind and is to
/// be brought up to date (`None`), or an error.
pub open spec fn reply_outcome(reply: Option<WitnessToIdPMessageView>) -> Result<
    Option<PublishVote>,
    IdpErrorView,
> {
    match reply {
        Some(WitnessToIdPMessageView::PublishVote(Ok(vote))) => Ok(Some(vote)),
        Some(WitnessToIdPMessageView::PublishVote(Err(error))) => match error {
            WitnessErrorView::UnexpectedSequenceNumber { expected, got } => if expected < got {
                Ok(None)
            } else {
                Err(IdpErrorView::WitnessError(error))
            },
            _ => Err(IdpErrorView::WitnessError(error)),
        },
        _ => Err(IdpErrorView::UnexpectedProtocolMessage),
    }
}

/// An outcome, with the error seen through its view.
pub open spec fn outcome_view(outcome: IdpResult<Option<PublishVote>>) -> Result<
    Option<PublishVote>,
    IdpErrorView,
> {
    match outcome {
        Ok(vote) => Ok(vote),
        Err(error) => Err(error@),
    }
}

/// What the publisher does after an answer.
#[derive(Debug)]
pub enum Step {
    /// Wait for more answers.
    Wait,
    /// Bring the witness up to date, and wait for more answers.
    Synchronize,
    /// Broadcast the certificate, in its wire format, and stop waiting.
    Certificate(Vec<u8>),
    /// Note the error, and wait for more answers.
    Dropped(IdpError),
    /// No notification waits for votes: the answer is left aside.
    Finished,
}

/// A `Step`, with what it holds seen through views.
pub enum StepView {
    Wait,
    Synchronize,
    Certificate(Seq<u8>),
    Dropped(IdpErrorView),
    Finished,
}

impl View for Step {
    type V = StepView;

    open spec fn view(&self) -> StepView {
        match self {
            Step::Wait => StepView::Wait,
            Step::Synchronize => StepView::Synchronize,
            Step::Certificate(bytes) => StepView::Certificate(bytes@),
            Step::Dropped(error) => StepView::Dropped(error@),
            Step::Finished => StepView::Finished,
        }
    }
}

/// The step after the aggregator's answer to a vote.
pub open spec fn step_after_vote(answer: Result<Option<PublishCertificateView>, IdpErrorView>) -> StepView {
    match answer {
        Ok(Some(certificate)) => StepView::Certificate(
            request_bytes(IdPToWitnessMessageView::PublishCertificate(certificate)),
        ),
        Ok(None) => StepView::Wait,
        Err(error) => StepView::Dropped(error),
    }
}

/// What a vote's signature check finds.
pub open spec fn vote_rejection(vote: PublishVote) -> Option<Seq<char>> {
    ed25519_rejection(
        vote.author@,
        message_digest(vote.root, vote.sequence_number),
        vote.signature@,
    )
}

/// What a publisher holds of the notification under way: whether it still
/// waits for votes, and the votes gathered.
pub struct Round {
    pub waiting: bool,
    pub tally: Tally,
}

/// The round after a vote, and the step to take. A publisher that does not
/// wait leaves the vote aside. One that waits hands it to the aggregator,
/// and stops waiting where that makes the certificate.
pub open spec fn round_after_vote(round: Round, members: Seq<Member>, vote: PublishVote) -> (
    Round,
    StepView,
) {
    if !round.waiting {
        (round, StepView::Finished)
    } else {
        let step = step_after_vote(tally_answer(round.tally, members, vote, vote_rejection(vote)));
        (
            Round {
                waiting: !(step is Certificate),
                tally: tally_after(round.tally, members, vote, vote_rejection(vote)),
            },
            step,
        )
    }
}

/// The round after a witness's answer in its wire format, and the step to
/// take.
pub open spec fn round_after_reply(round: Round, members: Seq<Member>, reply: Seq<u8>) -> (
    Round,
    StepView,
) {
    if !round.waiting {
        (round, StepView::Finished)
    } else {
        match reply_outcome(parse_reply(reply)) {
            Ok(Some(vote)) => round_after_vote(round, members, vote),
            Ok(None) => (round, StepView::Synchronize),
            Err(error) => (round, StepView::Dropped(error)),
        }
    }
}

/// The round after all of `replies`, in their order.
pub open spec fn round_after(round: Round, members: Seq<Member>, replies: Seq<Seq<u8>>) -> Round
    decreases replies.len(),
{
    if replies.len() == 0 {
        round
    } else {
        round_after(round_after_reply(round, members, replies[0]).0, members, replies.drop_first())
    }
}

/// The steps that the publisher takes for `replies`, one for each, in their
/// order.
pub open spec fn steps_of(round: Round, members: Seq<Member>, replies: Seq<Seq<u8>>) -> Seq<
    StepView,
>
    decreases replies.len(),
{
    if replies.len() == 0 {
        Seq::empty()
    } else {
        seq![round_after_reply(round, members, replies[0]).1] + steps_of(
            round_after_reply(round, members, replies[0]).0,
            members,
            replies.drop_first(),
        )
    }
}

/// A publisher that does not wait takes in nothing: every answer is left
/// aside, and the round stays as it is.
pub proof fn lemma_finished_stays(round: Round, members: Seq<Member>, replies: Seq<Seq<u8>>)
    requires
        !round.waiting,
    ensures
        steps_of(round, members, replies).len() == replies.len(),
        forall|i: int|
            0 <= i < replies.len() ==> #[trigger] steps_of(round, members, replies)[i]
                == StepView::Finished,
        round_after(round, members, replies) == round,
    decreases replies.len(),
{
    if replies.len() > 0 {
        lemma_finished_stays(round, members, replies.drop_first());
    }
}

/// One certificate for each notification: once an answer has made the
/// certificate, every later answer to the notification is left aside, and
/// no vote is taken in any more.
pub proof fn lemma_one_certificate(
    round: Round,
    members: Seq<Member>,
    replies: Seq<Seq<u8>>,
    i: int,
    j: int,
)
    requires
        0 <= i < j < replies.len(),
        steps_of(round, members, replies)[i] is Certificate,
    ensures
        steps_of(round, members, replies).len() == replies.len(),
        steps_of(round, members, replies)[j] == StepView::Finished,
        round_after(round, members, replies) == round_after(round, members, replies.take(i + 1)),
        !round_after(round, members, replies).waiting,
    decreases replies.len(),
{
    let next = round_after_reply(round, members, replies[0]).0;
    let rest = replies.drop_first();
    let steps = steps_of(round, members, replies);
    lemma_steps_length(next, members, rest);
    if i == 0 {
        assert(!next.waiting);
        lemma_finished_stays(next, members, rest);
        assert(steps[j] == steps_of(next, members, rest)[j - 1]);
        let first = replies.take(1);
        assert(first.drop_first() =~= Seq::<Seq<u8>>::empty());
        assert(first[0] == replies[0]);
        assert(round_after(round, members, first) == round_after(
            next,
            members,
            first.drop_first(),
        ));
        assert(round_after(round, members, replies) == round_after(next, members, rest));
    } else {
        assert(steps[i] == steps_of(next, members, rest)[i - 1]);
        lemma_one_certificate(next, members, rest, i - 1, j - 1);
        assert(steps[j] == steps_of(next, members, rest)[j - 1]);
        let first = replies.take(i + 1);
        assert(first.drop_first() =~= rest.take(i));
        assert(first[0] == replies[0]);
        assert(round_after(round, members, first) == round_after(
            next,
            members,
            first.drop_first(),
        ));
        assert(round_after(round, members, replies) == round_after(next, members, rest));
    }
}

/// There is one step for each answer.
pub proof fn lemma_steps_length(round: Round, members: Seq<Member>, replies: Seq<Seq<u8>>)
    ensures
        steps_of(round, members, replies).len() == replies.len(),
    decreases replies.len(),
{
    if replies.len() > 0 {
        lemma_steps_length(
            round_after_reply(round, members, replies[0]).0,
            members,
            replies.drop_first(),
        );
    }
}

/// Broadcasts notifications and gathers the votes for them.
pub struct Publisher {
    names: Vec<PublicKey>,
    addresses: Vec<String>,
    aggregator: Aggregator,
    waiting: bool,
}

impl Publisher {
    /// The aggregator of the votes.
    pub closed spec fn spec_aggregator(&self) -> Aggregator {
        self.aggregator
    }

    /// The witnesses' keys, in their order.
    pub closed spec fn spec_names(&self) -> Seq<PublicKey> {
        self.names@
    }

    /// The witnesses' addresses, in the order of their keys.
    pub closed spec fn spec_addresses(&self) -> Seq<String> {
        self.addresses@
    }

    /// Whether the publisher waits for votes, and the votes gathered.
    pub closed spec fn spec_round(&self) -> Round {
        Round { waiting: self.waiting, tally: self.aggregator@ }
    }

    /// The witnesses of the committee.
    pub open spec fn spec_members(&self) -> Seq<Member> {
        self.spec_aggregator().spec_committee().members()
    }

    /// The aggregator's tally is sound. Every publisher is made so, and
    /// stays so.
    pub open spec fn wf(&self) -> bool {
        self.spec_aggregator().wf() && self.spec_round().tally == self.spec_aggregator()@
    }

    /// A publisher for `committee`, with no notification under way: it
    /// waits for no votes.
    pub fn new(committee: Committee) -> (publisher: Publisher)
        ensures
            publisher.wf(),
            !publisher.spec_round().waiting,
            publisher.spec_aggregator().spec_committee() == committee,
            publisher.spec_names().len() == committee.members().len(),
            publisher.spec_addresses().len() == committee.members().len(),
            forall|i: int|
                0 <= i < committee.members().len() ==> (#[trigger] publisher.spec_names()[i])
                    == committee.members()[i].0 && publisher.spec_addresses()[i]@
                    == committee.members()[i].1.address@,
    {
        let ghost members = committee.members();
        let mut listed = committee.witnesses_addresses();
        let count = listed.len();
        let mut names: Vec<PublicKey> = Vec::new();
        let mut addresses: Vec<String> = Vec::new();
        let mut i: usize = 0;
        let ghost all = listed@;
        while i < count
            invariant
                0 <= i <= count,
                count == all.len(),
                all.len() == members.len(),
                forall|j: int|
                    0 <= j < all.len() ==> (#[trigger] all[j]).0 == members[j].0 && all[j].1@
                        == members[j].1.address@,
                listed@ =~= all.skip(i as int),
                names@.len() == i,
                addresses@.len() == i,
                forall|j: int|
                    0 <= j < i ==> (#[trigger] names@[j]) == all[j].0 && addresses@[j]@ == all[j].1@,
            decreases count - i,
        {
            let (name, address) = listed.remove(0);
            names.push(name);
            addresses.push(address);
            i = i + 1;
        }
        Publisher {
            names,
            addresses,
            aggregator: Aggregator::new(committee, Digest::default()),
            waiting: false,
        }
    }

    /// The witnesses' addresses, in the order of their keys.
    pub fn addresses(&self) -> (addresses: &Vec<String>)
        ensures
            addresses@ == self.spec_addresses(),
    {
        &self.addresses
    }

    /// The witnesses' keys, in their order.
    pub fn names(&self) -> (names: &Vec<PublicKey>)
        ensures
            names@ == self.spec_names(),
    {
        &self.names
    }

    /// Takes up a notification: the aggregator starts over for its root,
    /// and the publisher waits for votes. The first result is to be stored
    /// before the second, the message in its wire format, is broadcast to
    /// the witnesses.
    pub fn start(&mut self, notification: &PublishNotification) -> (task: (StorageWrite, Vec<u8>))
        requires
            old(self).wf(),
        ensures
            final(self).wf(),
            task.0@ == notification_write(notification@),
            task.1@ == request_bytes(IdPToWitnessMessageView::PublishNotification(notification@)),
            final(self).spec_aggregator().spec_committee() == old(
                self,
            ).spec_aggregator().spec_committee(),
            final(self).spec_round() == (Round {
                waiting: true,
                tally: Tally {
                    root: notification.root,
                    weight: 0,
                    votes: Seq::empty(),
                    used: Seq::empty(),
                },
            }),
            final(self).spec_names() == old(self).spec_names(),
            final(self).spec_addresses() == old(self).spec_addresses(),
    {
        let record = notification_record(notification);
        self.aggregator.reset(notification.root);
        self.waiting = true;
        let message = IdPToWitnessMessage::PublishNotification(notification.clone());
        (record, message.serialize())
    }

    /// Reads a witness's answer to a notification.
    pub fn handle_notification_reply(reply: &[u8]) -> (outcome: IdpResult<Option<PublishVote>>)
        ensures
            outcome_view(outcome) == reply_outcome(parse_reply(reply@)),
    {
        let result = match WitnessToIdPMessage::deserialize(reply) {
            Some(WitnessToIdPMessage::PublishVote(result)) => result,
            _ => {
                return Err(IdpError::UnexpectedProtocolMessage);
            },
        };
        match result {
            Ok(vote) => Ok(Some(vote)),
            Err(error) => {
                match &error {
                    WitnessError::UnexpectedSequenceNumber { expected, got } => {
                        if *expected < *got {
                            return Ok(None);
                        }
                    },
                    _ => {},
                }
                Err(IdpError::WitnessError(error))
            },
        }
    }

    /// Takes in a vote, and says what is to be done next. Where the step is
    /// the certificate, it is to be broadcast to every witness, and the
    /// publisher waits for no more votes.
    pub fn on_vote(&mut self, vote: PublishVote) -> (step: Step)
        requires
            old(self).wf(),
        ensures
            final(self).wf(),
            (final(self).spec_round(), step@) == round_after_vote(
                old(self).spec_round(),
                old(self).spec_members(),
                vote,
            ),
            final(self).spec_aggregator().spec_committee() == old(
                self,
            ).spec_aggregator().spec_committee(),
            final(self).spec_names() == old(self).spec_names(),
            final(self).spec_addresses() == old(self).spec_addresses(),
    {
        if !self.waiting {
            return Step::Finished;
        }
        match self.aggregator.append(vote) {
            Ok(Some(certificate)) => {
                let message = IdPToWitnessMessage::PublishCertificate(certificate);
                self.waiting = false;
                Step::Certificate(message.serialize())
            },
            Ok(None) => Step::Wait,
            Err(error) => Step::Dropped(error),
        }
    }

    /// Takes in a witness's answer to the notification under way, and says
    /// what is to be done next.
    pub fn on_reply(&mut self, reply: &[u8]) -> (step: Step)
        requires
            old(self).wf(),
        ensures
            final(self).wf(),
            final(self).spec_aggregator().spec_committee() == old(
                self,
            ).spec_aggregator().spec_committee(),
            final(self).spec_names() == old(self).spec_names(),
            final(self).spec_addresses() == old(self).spec_addresses(),
            (final(self).spec_round(), step@) == round_after_reply(
                old(self).spec_round(),
                old(self).spec_members(),
                reply@,
            ),
    {
        if !self.waiting {
            return Step::Finished;
        }
        match Publisher::handle_notification_reply(reply) {
            Ok(Some(vote)) => self.on_vote(vote),
            Ok(None) => Step::Synchronize,
            Err(error) => Step::Dropped(error),
        }
    }
}

} // verus!
