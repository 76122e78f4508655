//! What a witness does with each message that reaches it: which answer it
//! gives, and what it must have written to its stores before the answer
//! leaves.

use crate::committee::Member;
use crate::crypto::{KeyPair, PublicKey};
use crate::error::{MessageErrorView, WitnessErrorView};
use crate::message::{
    parse_request, IdPToWitnessMessage, IdPToWitnessMessageView, WitnessToIdPMessage,
    WitnessToIdPMessageView,
};
use crate::publish::{
    certificate_fault_fits, notification_fault, vote_by, PublishCertificate, PublishCertificateView,
    PublishNotification, PublishNotificationView, PublishVote,
};
use crate::storage::{
    certificate_key, certificate_record, certificate_write, lock_record, lock_write, sequence_record,
    sequence_write, StorageWrite, StorageWriteView,
};
use crate::sync::State;
use crate::wire::number_bytes;
use crate::witness::{
    after_certificate, after_vote, can_take, certificate_reply, seen, vote_reply, PublishHandler,
};
use vstd::prelude::*;

verus! {

/// A list of writes, each as two sequences of bytes.
pub open spec fn writes_view(writes: Seq<StorageWrite>) -> Seq<StorageWriteView> {
    Seq::new(writes.len(), |i: int| writes[i]@)
}

/// What a witness stores before it answers a notification: the vote as its
/// lock, where it gives one.
pub open spec fn vote_writes(reply: Result<PublishVote, WitnessErrorView>) -> Seq<StorageWriteView> {
    match reply {
        Ok(vote) => seq![lock_write(Some(vote))],
        Err(_) => Seq::empty(),
    }
}

/// What a witness stores, in one step, before it answers a certificate: the
/// new sequence number and the cleared lock, where it moves on.
pub open spec fn advance_writes(before: State, after: State) -> Seq<StorageWriteView> {
    if after.sequence_number != before.sequence_number {
        seq![sequence_write(after.sequence_number), lock_write(None)]
    } else {
        Seq::empty()
    }
}

/// What a witness archives before it answers a certificate: the
/// certificate, where it moves on.
pub open spec fn archive_writes(
    before: State,
    after: State,
    certificate: PublishCertificateView,
) -> Seq<StorageWriteView> {
    if after.sequence_number != before.sequence_number {
        seq![certificate_write(certificate)]
    } else {
        Seq::empty()
    }
}

/// A witness in `state` answers `notification` with `reply`, stores
/// `secure` and is in `after`: the answer is that of the vote rule.
pub open spec fn answers_notification(
    state: State,
    keypair: KeyPair,
    provider: PublicKey,
    notification: PublishNotificationView,
    reply: WitnessToIdPMessageView,
    secure: Seq<StorageWriteView>,
    after: State,
) -> bool {
    let answer = vote_reply(
        state,
        notification.root,
        notification.sequence_number,
        notification_fault(notification, provider),
        vote_by(keypair, notification.root, notification.sequence_number),
    );
    &&& reply == WitnessToIdPMessageView::PublishVote(answer)
    &&& secure == vote_writes(answer)
    &&& after == after_vote(state, answer)
    &&& answer matches Ok(vote) ==> vote.root == notification.root && vote.sequence_number
        == notification.sequence_number && notification.sequence_number == state.sequence_number
}

/// A witness in `state` answers `certificate` with `reply`, stores `secure`,
/// archives `audit` and is in `after`: the answer is that of the finalize
/// rule, for what verification found.
pub open spec fn answers_certificate(
    state: State,
    members: Seq<Member>,
    certificate: PublishCertificateView,
    reply: WitnessToIdPMessageView,
    secure: Seq<StorageWriteView>,
    audit: Seq<StorageWriteView>,
    after: State,
) -> bool {
    exists|fault: Option<MessageErrorView>|
        {
            &&& #[trigger] certificate_fault_fits(fault, members, certificate.votes)
            &&& reply == WitnessToIdPMessageView::State(
                certificate_reply(state, certificate.root, certificate.sequence_number, fault),
            )
            &&& after == after_certificate(
                state,
                certificate.root,
                certificate.sequence_number,
                fault,
            )
            &&& secure == advance_writes(state, after)
            &&& audit == archive_writes(state, after, certificate)
        }
}

/// Answers a notification. The witness must store `secure` before the
/// answer leaves it.
pub fn on_notification(handler: &mut PublishHandler, notification: &PublishNotification) -> (answer: (
    WitnessToIdPMessage,
    Vec<StorageWrite>,
))
    ensures
        answers_notification(
            old(handler).spec_state(),
            old(handler).spec_keypair(),
            old(handler).spec_committee().provider().name,
            notification@,
            answer.0@,
            writes_view(answer.1@),
            final(handler).spec_state(),
        ),
        final(handler).spec_keypair() == old(handler).spec_keypair(),
        final(handler).spec_committee() == old(handler).spec_committee(),
{
    let reply = handler.handle_notification(notification);
    let mut secure: Vec<StorageWrite> = Vec::new();
    match &reply {
        Ok(vote) => {
            secure.push(lock_record(&Some(*vote)));
        },
        Err(_) => {},
    }
    proof {
        assert(writes_view(secure@) =~= vote_writes(seen(reply)));
    }
    (WitnessToIdPMessage::PublishVote(reply), secure)
}

/// Answers a certificate. The witness must store `secure`, in one step,
/// and archive `audit` before the answer leaves it.
pub fn on_certificate(handler: &mut PublishHandler, certificate: &PublishCertificate) -> (answer: (
    WitnessToIdPMessage,
    Vec<StorageWrite>,
    Vec<StorageWrite>,
))
    requires
        can_take(old(handler).spec_state(), certificate.sequence_number),
    ensures
        answers_certificate(
            old(handler).spec_state(),
            old(handler).spec_committee().members(),
            certificate@,
            answer.0@,
            writes_view(answer.1@),
            writes_view(answer.2@),
            final(handler).spec_state(),
        ),
        final(handler).spec_keypair() == old(handler).spec_keypair(),
        final(handler).spec_committee() == old(handler).spec_committee(),
{
    let before = handler.state();
    let reply = handler.handle_certificate(certificate);
    let after = handler.state();
    let mut secure: Vec<StorageWrite> = Vec::new();
    let mut audit: Vec<StorageWrite> = Vec::new();
    if after.sequence_number != before.sequence_number {
        secure.push(sequence_record(after.sequence_number));
        secure.push(lock_record(&None));
        audit.push(certificate_record(certificate));
    }
    proof {
        assert(writes_view(secure@) =~= advance_writes(before, after));
        assert(writes_view(audit@) =~= archive_writes(before, after, certificate@));
        let fault = choose|fault: Option<MessageErrorView>|
            {
                &&& #[trigger] certificate_fault_fits(
                    fault,
                    old(handler).spec_committee().members(),
                    certificate.votes@,
                )
                &&& seen(reply) == certificate_reply(
                    before,
                    certificate.root,
                    certificate.sequence_number,
                    fault,
                )
                &&& after == after_certificate(
                    before,
                    certificate.root,
                    certificate.sequence_number,
                    fault,
                )
            };
        assert(certificate_fault_fits(
            fault,
            old(handler).spec_committee().members(),
            certificate@.votes,
        ));
    }
    (WitnessToIdPMessage::State(reply), secure, audit)
}

/// Answers a query for the witness's state.
pub fn on_state_query(handler: &PublishHandler) -> (reply: WitnessToIdPMessage)
    ensures
        reply@ == WitnessToIdPMessageView::State(Ok(handler.spec_state())),
{
    WitnessToIdPMessage::State(Ok(handler.state()))
}

/// The answer to a query for an archived certificate, given what the
/// archive holds under its key: the certificate's bytes where it holds
/// them, and no bytes where it holds nothing. The answer without bytes says
/// "not found".
pub open spec fn sync_answer(stored: Option<Seq<u8>>) -> WitnessToIdPMessageView {
    match stored {
        Some(bytes) => WitnessToIdPMessageView::PublishCertificateResponse(bytes),
        None => WitnessToIdPMessageView::PublishCertificateResponse(Seq::empty()),
    }
}

/// No certificate is taken for "not found": an archived certificate makes an
/// answer with bytes, 48 at the least.
pub proof fn lemma_found_differs_from_not_found(certificate: PublishCertificateView)
    ensures
        sync_answer(Some(certificate_write(certificate).value)) != sync_answer(None),
{
    crate::codec::lemma_certificate_length(certificate);
}

/// Answers a query for an archived certificate with what the archive holds
/// under its key, and with "not found" where it holds nothing: every query
/// is answered.
pub fn sync_reply(stored: Option<Vec<u8>>) -> (reply: WitnessToIdPMessage)
    ensures
        reply@ == sync_answer(
            match stored {
                Some(bytes) => Some(bytes@),
                None => None,
            },
        ),
{
    match stored {
        Some(bytes) => WitnessToIdPMessage::PublishCertificateResponse(bytes),
        None => WitnessToIdPMessage::PublishCertificateResponse(Vec::new()),
    }
}

/// What a witness is to do for a message.
#[derive(Debug)]
pub enum Reaction {
    /// Store `secure` in one step, archive `audit`, then send `reply`.
    Answer { reply: WitnessToIdPMessage, secure: Vec<StorageWrite>, audit: Vec<StorageWrite> },
    /// Look `key` up in the archive, and answer with `sync_reply`.
    Lookup { key: Vec<u8> },
}

/// Reads a message and has the witness act on it. There is nothing to do
/// where the bytes are no message.
pub fn dispatch(handler: &mut PublishHandler, serialized: &[u8]) -> (reaction: Option<Reaction>)
    requires
        parse_request(serialized@) matches Some(
            IdPToWitnessMessageView::PublishCertificate(certificate),
        ) ==> can_take(old(handler).spec_state(), certificate.sequence_number),
    ensures
        final(handler).spec_keypair() == old(handler).spec_keypair(),
        final(handler).spec_committee() == old(handler).spec_committee(),
        match parse_request(serialized@) {
            None => reaction is None && final(handler).spec_state() == old(handler).spec_state(),
            Some(IdPToWitnessMessageView::PublishNotification(notification)) => {
                &&& reaction matches Some(Reaction::Answer { reply, secure, audit })
                &&& audit@.len() == 0
                &&& answers_notification(
                    old(handler).spec_state(),
                    old(handler).spec_keypair(),
                    old(handler).spec_committee().provider().name,
                    notification,
                    reply@,
                    writes_view(secure@),
                    final(handler).spec_state(),
                )
            },
            Some(IdPToWitnessMessageView::PublishCertificate(certificate)) => {
                &&& reaction matches Some(Reaction::Answer { reply, secure, audit })
                &&& answers_certificate(
                    old(handler).spec_state(),
                    old(handler).spec_committee().members(),
                    certificate,
                    reply@,
                    writes_view(secure@),
                    writes_view(audit@),
                    final(handler).spec_state(),
                )
            },
            Some(IdPToWitnessMessageView::StateQuery) => {
                &&& reaction matches Some(Reaction::Answer { reply, secure, audit })
                &&& reply@ == WitnessToIdPMessageView::State(Ok(old(handler).spec_state()))
                &&& secure@.len() == 0
                &&& audit@.len() == 0
                &&& final(handler).spec_state() == old(handler).spec_state()
            },
            Some(IdPToWitnessMessageView::PublishCertificateQuery(query)) => {
                &&& reaction matches Some(Reaction::Lookup { key })
                &&& key@ == number_bytes(query.sequence_number)
                &&& final(handler).spec_state() == old(handler).spec_state()
            },
        },
{
    let message = match IdPToWitnessMessage::deserialize(serialized) {
        Some(message) => message,
        None => {
            return None;
        },
    };
    match message {
        IdPToWitnessMessage::PublishNotification(notification) => {
            let (reply, secure) = on_notification(handler, &notification);
            Some(Reaction::Answer { reply, secure, audit: Vec::new() })
        },
        IdPToWitnessMessage::PublishCertificate(certificate) => {
            let (reply, secure, audit) = on_certificate(handler, &certificate);
            Some(Reaction::Answer { reply, secure, audit })
        },
        IdPToWitnessMessage::StateQuery => {
            let reply = on_state_query(handler);
            Some(Reaction::Answer { reply, secure: Vec::new(), audit: Vec::new() })
        },
        IdPToWitnessMessage::PublishCertificateQuery(query) => {
            Some(Reaction::Lookup { key: certificate_key(query.sequence_number) })
        },
    }
}

} // verus!
