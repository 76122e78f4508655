//! The witness: when it votes, when it refuses, and when it moves on to
//! the next sequence number.
//!
//! The rules are pure functions of the witness's state and of what came in.
//! `PublishHandler` holds the state and applies them. The laws at the end
//! speak of whole runs.

use crate::committee::Committee;
use crate::crypto::{lemma_digest_bytes, zero_digest, Digest, KeyPair, PublicKey};
use crate::error::{
    MessageErrorView, MessageResult, SequenceNumber, WitnessError, WitnessErrorView, WitnessResult,
};
use crate::publish::{
    certificate_fault_fits, fault_of, notification_fault, vote_by, PublishCertificate,
    PublishNotification, PublishVote, Root,
};
use crate::sync::State;
use vstd::prelude::*;

verus! {

/// A witness's answer, with the error seen through its view.
pub open spec fn seen<T>(result: WitnessResult<T>) -> Result<T, WitnessErrorView> {
    match result {
        Ok(value) => Ok(value),
        Err(error) => Err(error@),
    }
}

/// The lock, where there is one, is a vote at the state's own sequence
/// number.
pub open spec fn lock_fits(state: State) -> bool {
    state.lock matches Some(vote) ==> vote.sequence_number == state.sequence_number
}

/// What the vote rule decides for a notification of `root` at `number`
/// whose verification found `fault`: an error, the vote given before
/// (`Some`), or that a new vote is due (`None`).
pub open spec fn vote_decision(
    state: State,
    root: Root,
    number: SequenceNumber,
    fault: Option<MessageErrorView>,
) -> Result<Option<PublishVote>, WitnessErrorView> {
    match fault {
        Some(found) => Err(WitnessErrorView::MessageError(found)),
        None => if state.sequence_number != number {
            Err(
                WitnessErrorView::UnexpectedSequenceNumber {
                    expected: state.sequence_number,
                    got: number,
                },
            )
        } else {
            match state.lock {
                Some(vote) => if vote.root == root {
                    Ok(Some(vote))
                } else {
                    Err(
                        WitnessErrorView::ConflictingNotification {
                            lock_root: vote.root,
                            received_root: root,
                        },
                    )
                },
                None => Ok(None),
            }
        },
    }
}

/// The witness's answer to a notification, where `signed` is the vote that
/// it signs when a new vote is due.
pub open spec fn vote_reply(
    state: State,
    root: Root,
    number: SequenceNumber,
    fault: Option<MessageErrorView>,
    signed: PublishVote,
) -> Result<PublishVote, WitnessErrorView> {
    match vote_decision(state, root, number, fault) {
        Ok(Some(vote)) => Ok(vote),
        Ok(None) => Ok(signed),
        Err(error) => Err(error),
    }
}

/// The state after the answer `reply` to a notification: locked on the vote
/// where one was given, else as before.
pub open spec fn after_vote(state: State, reply: Result<PublishVote, WitnessErrorView>) -> State {
    match reply {
        Ok(vote) => State { root: state.root, sequence_number: state.sequence_number, lock: Some(vote) },
        Err(_) => state,
    }
}

/// What is wrong with a certificate at `number` for a witness at `current`,
/// where its verification found `fault`.
pub open spec fn certificate_error(
    current: SequenceNumber,
    number: SequenceNumber,
    fault: Option<MessageErrorView>,
) -> Option<WitnessErrorView> {
    match fault {
        Some(found) => Some(WitnessErrorView::MessageError(found)),
        None => if current >= number {
            None
        } else {
            Some(WitnessErrorView::MissingEarlierCertificates(current))
        },
    }
}

/// Whether a certificate at `number` whose verification found `fault` moves
/// a witness in `state` on: it is sound and at the witness's own number, and
/// there is a number to move on to.
pub open spec fn finalizes(
    state: State,
    number: SequenceNumber,
    fault: Option<MessageErrorView>,
) -> bool {
    fault is None && state.sequence_number == number && number < u64::MAX
}

/// The state after a certificate of `root` at `number`: one sequence number
/// on, without a lock, where the certificate moves the witness on; else as
/// before.
pub open spec fn after_certificate(
    state: State,
    root: Root,
    number: SequenceNumber,
    fault: Option<MessageErrorView>,
) -> State {
    if finalizes(state, number, fault) {
        State { root, sequence_number: (number + 1) as u64, lock: None }
    } else {
        state
    }
}

/// Whether a witness in `state` can take in a certificate at `number`: a
/// witness at the last sequence number that 64 bits hold cannot move on,
/// and takes in no certificate at that number.
pub open spec fn can_take(state: State, number: SequenceNumber) -> bool {
    number == state.sequence_number ==> number < u64::MAX
}

/// The witness's answer to a certificate: the error, or the state that it
/// is in afterwards.
pub open spec fn certificate_reply(
    state: State,
    root: Root,
    number: SequenceNumber,
    fault: Option<MessageErrorView>,
) -> Result<State, WitnessErrorView> {
    match certificate_error(state.sequence_number, number, fault) {
        Some(error) => Err(error),
        None => Ok(after_certificate(state, root, number, fault)),
    }
}

/// The vote rule. `verified` is what verification of the notification
/// answered. The result is an error, the vote given before (`Some`), or
/// that a new vote is due (`None`).
pub fn vote_rule(
    state: &State,
    root: &Root,
    number: SequenceNumber,
    verified: MessageResult<()>,
) -> (decision: WitnessResult<Option<PublishVote>>)
    ensures
        seen(decision) == vote_decision(*state, *root, number, fault_of(verified)),
{
    match verified {
        Ok(_) => {},
        Err(fault) => {
            return Err(WitnessError::MessageError(fault));
        },
    }
    if state.sequence_number != number {
        return Err(
            WitnessError::UnexpectedSequenceNumber { expected: state.sequence_number, got: number },
        );
    }
    match state.lock {
        Some(vote) => {
            proof {
                lemma_digest_bytes(vote.root, *root);
            }
            if vote.root == *root {
                Ok(Some(vote))
            } else {
                Err(
                    WitnessError::ConflictingNotification {
                        lock_root: vote.root,
                        received_root: *root,
                    },
                )
            }
        },
        None => Ok(None),
    }
}

/// The finalize rule. `verified` is what verification of the certificate
/// answered. The result is an error, or whether the witness moves on to the
/// next sequence number (`true`) or has done so before (`false`).
pub fn finalize_rule(
    current: SequenceNumber,
    number: SequenceNumber,
    verified: MessageResult<()>,
) -> (decision: WitnessResult<bool>)
    ensures
        match certificate_error(current, number, fault_of(verified)) {
            Some(error) => seen(decision) == Err::<bool, WitnessErrorView>(error),
            None => decision == Ok::<bool, WitnessError>(current == number),
        },
{
    match verified {
        Ok(_) => {},
        Err(fault) => {
            return Err(WitnessError::MessageError(fault));
        },
    }
    if current < number {
        return Err(WitnessError::MissingEarlierCertificates(current));
    }
    Ok(current == number)
}

/// The core of a witness: its keys, the committee, and its state.
pub struct PublishHandler {
    keypair: KeyPair,
    committee: Committee,
    state: State,
}

impl PublishHandler {
    /// The state of the witness.
    pub closed spec fn spec_state(&self) -> State {
        self.state
    }

    /// The witness's key pair.
    pub closed spec fn spec_keypair(&self) -> KeyPair {
        self.keypair
    }

    /// The committee that the witness belongs to.
    pub closed spec fn spec_committee(&self) -> Committee {
        self.committee
    }

    /// The lock is a vote at the current sequence number.
    #[verifier::type_invariant]
    pub closed spec fn well_formed(&self) -> bool {
        lock_fits(self.state)
    }

    /// A witness that starts out: at sequence number 0, without a lock.
    pub fn new(keypair: KeyPair, committee: Committee) -> (handler: PublishHandler)
        ensures
            handler.spec_keypair() == keypair,
            handler.spec_committee() == committee,
            handler.spec_state() == (State { root: zero_digest(), sequence_number: 0, lock: None }),
    {
        PublishHandler { keypair, committee, state: State::default() }
    }

    /// A witness that takes up again what it had stored. There is none
    /// where the stored lock is a vote at another sequence number: no run
    /// of a witness leaves such a lock behind.
    pub fn restore(
        keypair: KeyPair,
        committee: Committee,
        sequence_number: SequenceNumber,
        lock: Option<PublishVote>,
    ) -> (restored: Option<PublishHandler>)
        ensures
            restored is Some <==> (lock matches Some(vote) ==> vote.sequence_number
                == sequence_number),
            restored matches Some(handler) ==> {
                &&& handler.spec_keypair() == keypair
                &&& handler.spec_committee() == committee
                &&& handler.spec_state() == (State { root: zero_digest(), sequence_number, lock })
            },
    {
        match lock {
            Some(vote) => {
                if vote.sequence_number != sequence_number {
                    return None;
                }
            },
            None => {},
        }
        Some(
            PublishHandler {
                keypair,
                committee,
                state: State { root: Digest::default(), sequence_number, lock },
            },
        )
    }

    /// The state of the witness.
    pub fn state(&self) -> (state: State)
        ensures
            state == self.spec_state(),
            lock_fits(state),
    {
        proof {
            use_type_invariant(self);
        }
        self.state
    }

    /// The witness's public key.
    pub fn name(&self) -> (name: PublicKey)
        ensures
            name == self.spec_keypair().spec_public(),
    {
        self.keypair.public()
    }

    /// The witness's answer to `notification`, by the vote rule. The state
    /// stays as it is.
    pub fn make_vote(&self, notification: &PublishNotification) -> (reply: WitnessResult<PublishVote>)
        ensures
            seen(reply) == vote_reply(
                self.spec_state(),
                notification.root,
                notification.sequence_number,
                notification_fault(notification@, self.spec_committee().provider().name),
                vote_by(self.spec_keypair(), notification.root, notification.sequence_number),
            ),
            reply matches Ok(vote) ==> vote.root == notification.root && vote.sequence_number
                == notification.sequence_number && notification.sequence_number
                == self.spec_state().sequence_number,
    {
        proof {
            use_type_invariant(self);
        }
        let verified = notification.verify(&self.committee, &self.state.root);
        match vote_rule(&self.state, &notification.root, notification.sequence_number, verified) {
            Ok(Some(vote)) => Ok(vote),
            Ok(None) => Ok(PublishVote::new(notification, &self.keypair)),
            Err(error) => Err(error),
        }
    }

    /// Answers `notification` and locks on the vote, where one is given.
    pub fn handle_notification(&mut self, notification: &PublishNotification) -> (reply:
        WitnessResult<PublishVote>)
        ensures
            seen(reply) == vote_reply(
                old(self).spec_state(),
                notification.root,
                notification.sequence_number,
                notification_fault(notification@, old(self).spec_committee().provider().name),
                vote_by(old(self).spec_keypair(), notification.root, notification.sequence_number),
            ),
            reply matches Ok(vote) ==> vote.root == notification.root && vote.sequence_number
                == notification.sequence_number && notification.sequence_number == old(
                self,
            ).spec_state().sequence_number,
            final(self).spec_state() == after_vote(old(self).spec_state(), seen(reply)),
            final(self).spec_keypair() == old(self).spec_keypair(),
            final(self).spec_committee() == old(self).spec_committee(),
    {
        proof {
            use_type_invariant(&*self);
        }
        let reply = self.make_vote(notification);
        match &reply {
            Ok(vote) => {
                self.state = State {
                    root: self.state.root,
                    sequence_number: self.state.sequence_number,
                    lock: Some(*vote),
                };
            },
            Err(_) => {},
        }
        reply
    }

    /// Verifies `certificate` and tells whether the witness lacks earlier
    /// ones. The state stays as it is.
    pub fn process_certificate(&self, certificate: &PublishCertificate) -> (result: WitnessResult<()>)
        ensures
            exists|fault: Option<MessageErrorView>|
                {
                    &&& #[trigger] certificate_fault_fits(
                        fault,
                        self.spec_committee().members(),
                        certificate.votes@,
                    )
                    &&& match certificate_error(
                        self.spec_state().sequence_number,
                        certificate.sequence_number,
                        fault,
                    ) {
                        Some(error) => seen(result) == Err::<(), WitnessErrorView>(error),
                        None => result is Ok,
                    }
                },
    {
        let verified = certificate.verify(&self.committee);
        let ghost fault = fault_of(verified);
        let decision = finalize_rule(
            self.state.sequence_number,
            certificate.sequence_number,
            verified,
        );
        let result = match decision {
            Ok(_) => Ok(()),
            Err(error) => Err(error),
        };
        proof {
            assert(certificate_fault_fits(
                fault,
                self.spec_committee().members(),
                certificate.votes@,
            ));
            assert(match certificate_error(
                self.spec_state().sequence_number,
                certificate.sequence_number,
                fault,
            ) {
                Some(error) => seen(result) == Err::<(), WitnessErrorView>(error),
                None => result is Ok,
            });
        }
        result
    }

    /// Applies the finalize rule to a certificate of `root` at `number`
    /// whose verification answered `verified`.
    pub fn apply_certificate(
        &mut self,
        root: &Root,
        number: SequenceNumber,
        verified: MessageResult<()>,
    ) -> (reply: WitnessResult<State>)
        requires
            verified is Ok ==> can_take(old(self).spec_state(), number),
        ensures
            seen(reply) == certificate_reply(
                old(self).spec_state(),
                *root,
                number,
                fault_of(verified),
            ),
            final(self).spec_state() == after_certificate(
                old(self).spec_state(),
                *root,
                number,
                fault_of(verified),
            ),
            final(self).spec_keypair() == old(self).spec_keypair(),
            final(self).spec_committee() == old(self).spec_committee(),
    {
        match finalize_rule(self.state.sequence_number, number, verified) {
            Ok(advance) => {
                if advance {
                    self.state = State { root: *root, sequence_number: number + 1, lock: None };
                }
                Ok(self.state)
            },
            Err(error) => Err(error),
        }
    }

    /// Verifies `certificate` and applies the finalize rule to it.
    pub fn handle_certificate(&mut self, certificate: &PublishCertificate) -> (reply: WitnessResult<
        State,
    >)
        requires
            can_take(old(self).spec_state(), certificate.sequence_number),
        ensures
            exists|fault: Option<MessageErrorView>|
                {
                    &&& #[trigger] certificate_fault_fits(
                        fault,
                        old(self).spec_committee().members(),
                        certificate.votes@,
                    )
                    &&& seen(reply) == certificate_reply(
                        old(self).spec_state(),
                        certificate.root,
                        certificate.sequence_number,
                        fault,
                    )
                    &&& final(self).spec_state() == after_certificate(
                        old(self).spec_state(),
                        certificate.root,
                        certificate.sequence_number,
                        fault,
                    )
                },
            final(self).spec_keypair() == old(self).spec_keypair(),
            final(self).spec_committee() == old(self).spec_committee(),
    {
        let verified = certificate.verify(&self.committee);
        let ghost fault = fault_of(verified);
        assert(certificate_fault_fits(fault, self.committee.members(), certificate.votes@));
        self.apply_certificate(&certificate.root, certificate.sequence_number, verified)
    }
}

/// What may reach a witness in a run: a notification with what its
/// verification found and the vote that the witness would sign for it; a
/// certificate with what its verification found; or a crash, after which
/// the witness takes up what it had stored.
pub enum Event {
    Notification {
        root: Root,
        sequence_number: SequenceNumber,
        fault: Option<MessageErrorView>,
        signed: PublishVote,
    },
    Certificate { root: Root, sequence_number: SequenceNumber, fault: Option<MessageErrorView> },
    Restart,
}

/// The vote that a witness would sign for a notification is a vote for the
/// notification's root at its sequence number.
pub open spec fn well_signed(event: Event) -> bool {
    event matches Event::Notification { root, sequence_number, signed, .. } ==> signed.root == root
        && signed.sequence_number == sequence_number
}

/// What a witness has after a crash: the sequence number and the lock, as
/// stored. The root is not stored.
pub open spec fn restarted(state: State) -> State {
    State { root: zero_digest(), sequence_number: state.sequence_number, lock: state.lock }
}

/// The vote that the witness sends in answer to `event`, if it sends one.
pub open spec fn vote_sent(state: State, event: Event) -> Option<PublishVote> {
    match event {
        Event::Notification { root, sequence_number, fault, signed } => match vote_reply(
            state,
            root,
            sequence_number,
            fault,
            signed,
        ) {
            Ok(vote) => Some(vote),
            Err(_) => None,
        },
        _ => None,
    }
}

/// The state of the witness after `event`.
pub open spec fn step(state: State, event: Event) -> State {
    match event {
        Event::Notification { root, sequence_number, fault, signed } => after_vote(
            state,
            vote_reply(state, root, sequence_number, fault, signed),
        ),
        Event::Certificate { root, sequence_number, fault } => after_certificate(
            state,
            root,
            sequence_number,
            fault,
        ),
        Event::Restart => restarted(state),
    }
}

/// The state of the witness after all of `events`, in their order.
pub open spec fn run(state: State, events: Seq<Event>) -> State
    decreases events.len(),
{
    if events.len() == 0 {
        state
    } else {
        run(step(state, events[0]), events.drop_first())
    }
}

/// The votes that the witness sends in answer to `events`, in their order.
pub open spec fn votes_sent(state: State, events: Seq<Event>) -> Seq<PublishVote>
    decreases events.len(),
{
    if events.len() == 0 {
        Seq::empty()
    } else {
        let first = match vote_sent(state, events[0]) {
            Some(vote) => seq![vote],
            None => Seq::empty(),
        };
        first + votes_sent(step(state, events[0]), events.drop_first())
    }
}

/// A step keeps the lock at the state's sequence number, and never lowers
/// that number.
pub proof fn lemma_step_keeps_lock(state: State, event: Event)
    requires
        lock_fits(state),
        well_signed(event),
    ensures
        lock_fits(step(state, event)),
        step(state, event).sequence_number >= state.sequence_number,
        step(state, event).sequence_number <= state.sequence_number + 1,
{
}

/// Sequence monotonicity: a certificate moves the witness on by exactly one
/// sequence number, and clears the lock, if it is sound and at the witness's
/// own number. This is for a witness below the last sequence number that 64
/// bits hold: the last one has no number to move on to.
pub proof fn lemma_sequence_monotone(
    state: State,
    root: Root,
    number: SequenceNumber,
    fault: Option<MessageErrorView>,
)
    requires
        state.sequence_number < u64::MAX,
    ensures
        after_certificate(state, root, number, fault).sequence_number == state.sequence_number + 1
            <==> number == state.sequence_number && fault is None,
        number == state.sequence_number && fault is None ==> after_certificate(
            state,
            root,
            number,
            fault,
        ).lock is None,
{
}

/// A certificate at another number than the witness's own, or one whose
/// verification failed, leaves the state as it is: sequence number and lock
/// alike. This holds of every state.
pub proof fn lemma_other_certificates_change_nothing(
    state: State,
    root: Root,
    number: SequenceNumber,
    fault: Option<MessageErrorView>,
)
    requires
        number != state.sequence_number || fault is Some,
    ensures
        after_certificate(state, root, number, fault) == state,
        can_take(state, number) || fault is Some,
{
}

/// Notifications never change the sequence number.
pub proof fn lemma_votes_keep_number(state: State, reply: Result<PublishVote, WitnessErrorView>)
    ensures
        after_vote(state, reply).sequence_number == state.sequence_number,
        after_vote(state, reply).root == state.root,
{
}

/// Idempotent re-vote: a notification that comes a second time gets the
/// answer of the first time, and leaves the state as the first time left it.
pub proof fn lemma_revote_same(
    state: State,
    root: Root,
    number: SequenceNumber,
    fault: Option<MessageErrorView>,
    signed: PublishVote,
)
    requires
        signed.root == root,
    ensures
        ({
            let first = vote_reply(state, root, number, fault, signed);
            let locked = after_vote(state, first);
            vote_reply(locked, root, number, fault, signed) == first && after_vote(locked, first)
                == locked
        }),
{
}

/// Crash recovery: a witness that has answered a notification, crashes and
/// takes up what it had stored, answers the same notification as before.
pub proof fn lemma_revote_after_restart(
    state: State,
    root: Root,
    number: SequenceNumber,
    fault: Option<MessageErrorView>,
    signed: PublishVote,
)
    requires
        signed.root == root,
    ensures
        ({
            let first = vote_reply(state, root, number, fault, signed);
            let locked = after_vote(state, first);
            vote_reply(restarted(locked), root, number, fault, signed) == first
        }),
{
}

/// A locked witness refuses every other root at its sequence number, and
/// keeps its lock.
pub proof fn lemma_conflict_refused(
    state: State,
    root: Root,
    number: SequenceNumber,
    signed: PublishVote,
)
    requires
        state.lock matches Some(vote) && vote.root != root,
        number == state.sequence_number,
    ensures
        vote_reply(state, root, number, None, signed) == Err::<PublishVote, WitnessErrorView>(
            WitnessErrorView::ConflictingNotification {
                lock_root: state.lock->0.root,
                received_root: root,
            },
        ),
        after_vote(state, vote_reply(state, root, number, None, signed)) == state,
{
}

proof fn lemma_votes_of_run(state: State, events: Seq<Event>)
    requires
        lock_fits(state),
        forall|i: int| 0 <= i < events.len() ==> well_signed(#[trigger] events[i]),
    ensures
        forall|i: int|
            0 <= i < votes_sent(state, events).len() ==> (#[trigger] votes_sent(
                state,
                events,
            )[i]).sequence_number >= state.sequence_number,
        forall|i: int|
            0 <= i < votes_sent(state, events).len() && state.lock is Some && (
            #[trigger] votes_sent(state, events)[i]).sequence_number == state.sequence_number
                ==> votes_sent(state, events)[i].root == state.lock->0.root,
        forall|i: int, j: int|
            0 <= i < votes_sent(state, events).len() && 0 <= j < votes_sent(state, events).len() && (
            #[trigger] votes_sent(state, events)[i]).sequence_number == (#[trigger] votes_sent(
                state,
                events,
            )[j]).sequence_number ==> votes_sent(state, events)[i].root == votes_sent(
                state,
                events,
            )[j].root,
    decreases events.len(),
{
    if events.len() > 0 {
        let event = events[0];
        let next = step(state, event);
        let rest = events.drop_first();
        let later = votes_sent(next, rest);
        let all = votes_sent(state, events);
        assert(well_signed(event));
        lemma_step_keeps_lock(state, event);
        assert forall|i: int| 0 <= i < rest.len() implies well_signed(#[trigger] rest[i]) by {
            assert(rest[i] == events[i + 1]);
        }
        lemma_votes_of_run(next, rest);
        match vote_sent(state, event) {
            Some(vote) => {
                assert(all =~= seq![vote] + later);
                assert(vote.sequence_number == state.sequence_number);
                assert(next.lock == Some(vote));
                assert forall|i: int| 0 <= i < all.len() implies (
                #[trigger] all[i]).sequence_number >= state.sequence_number by {
                    if i > 0 {
                        assert(all[i] == later[i - 1]);
                    }
                }
                assert forall|i: int|
                    0 <= i < all.len() && state.lock is Some && (
                    #[trigger] all[i]).sequence_number
                        == state.sequence_number implies all[i].root == state.lock->0.root by {
                    if i > 0 {
                        assert(all[i] == later[i - 1]);
                    }
                }
                assert forall|i: int, j: int|
                    0 <= i < all.len() && 0 <= j < all.len() && (#[trigger] all[i]).sequence_number
                        == (#[trigger] all[j]).sequence_number implies all[i].root
                    == all[j].root by {
                    if i > 0 {
                        assert(all[i] == later[i - 1]);
                    }
                    if j > 0 {
                        assert(all[j] == later[j - 1]);
                    }
                }
            },
            None => {
                assert(all =~= later);
            },
        }
    }
}

/// No equivocation: whatever reaches a witness, and however often it
/// crashes, it never sends two votes for different roots at one sequence
/// number. This holds of every run: a witness at the last sequence number
/// that 64 bits hold stays there.
pub proof fn lemma_no_equivocation(state: State, events: Seq<Event>, i: int, j: int)
    requires
        lock_fits(state),
        forall|k: int| 0 <= k < events.len() ==> well_signed(#[trigger] events[k]),
        0 <= i < votes_sent(state, events).len(),
        0 <= j < votes_sent(state, events).len(),
        votes_sent(state, events)[i].sequence_number == votes_sent(
            state,
            events,
        )[j].sequence_number,
    ensures
        votes_sent(state, events)[i].root == votes_sent(state, events)[j].root,
{
    lemma_votes_of_run(state, events);
}

/// Witness monotonicity: over a run the sequence number never falls, and
/// rises by at most one with each event.
pub proof fn lemma_run_monotone(state: State, events: Seq<Event>)
    requires
        lock_fits(state),
        forall|k: int| 0 <= k < events.len() ==> well_signed(#[trigger] events[k]),
    ensures
        lock_fits(run(state, events)),
        state.sequence_number <= run(state, events).sequence_number <= state.sequence_number
            + events.len(),
    decreases events.len(),
{
    if events.len() > 0 {
        let rest = events.drop_first();
        assert(well_signed(events[0]));
        lemma_step_keeps_lock(state, events[0]);
        assert forall|i: int| 0 <= i < rest.len() implies well_signed(#[trigger] rest[i]) by {
            assert(rest[i] == events[i + 1]);
        }
        lemma_run_monotone(step(state, events[0]), rest);
    }
}

} // verus!
