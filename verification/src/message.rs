//! The messages between the identity provider and the witnesses, and their
//! wire format: a four-byte tag for the variant, then the variant's fields.

use crate::codec::{
    certificate_bytes, lemma_certificate_round_trip, lemma_notification_round_trip,
    lemma_query_round_trip, lemma_state_round_trip, lemma_vote_round_trip, notification_bytes,
    parse_certificate, parse_notification, parse_query, parse_state, parse_vote, put_certificate,
    put_notification, put_state, put_vote, query_bytes, read_certificate, read_notification,
    read_state, read_vote, state_bytes, vote_bytes,
};
use crate::crypto::{Digest, PublicKey};
use crate::error::{MessageError, MessageErrorView, WitnessError, WitnessErrorView, WitnessResult};
use crate::publish::{
    PublishCertificate, PublishCertificateView, PublishNotification, PublishNotificationView,
    PublishVote,
};
use crate::sync::{PublishCertificateQuery, State};
use crate::wire::{
    blob_bytes, digest_from, key_from, lemma_blob_round_trip, lemma_digest_from, lemma_key_from,
    lemma_number_round_trip, lemma_tag_round_trip, lemma_text_round_trip, number_bytes, parse_blob,
    parse_tag, parse_text, put, put_blob, put_number, put_tag, put_text, read_32,
    read_blob, read_number, read_tag, read_text, tag_bytes, text_bytes,
};
use crate::witness::seen;
use vstd::bytes::spec_u64_from_le_bytes;
use vstd::prelude::*;
use vstd::utf8::encode_utf8;

verus! {

/// A certificate in its wire format.
pub type SerializedPublishCertificateMessage = Vec<u8>;

/// What the identity provider sends to a witness.
#[derive(Debug)]
pub enum IdPToWitnessMessage {
    PublishNotification(PublishNotification),
    PublishCertificate(PublishCertificate),
    StateQuery,
    PublishCertificateQuery(PublishCertificateQuery),
}

/// An `IdPToWitnessMessage`, with what it holds seen through views.
pub enum IdPToWitnessMessageView {
    PublishNotification(PublishNotificationView),
    PublishCertificate(PublishCertificateView),
    StateQuery,
    PublishCertificateQuery(PublishCertificateQuery),
}

impl View for IdPToWitnessMessage {
    type V = IdPToWitnessMessageView;

    open spec fn view(&self) -> IdPToWitnessMessageView {
        match self {
            IdPToWitnessMessage::PublishNotification(notification) => {
                IdPToWitnessMessageView::PublishNotification(notification@)
            },
            IdPToWitnessMessage::PublishCertificate(certificate) => {
                IdPToWitnessMessageView::PublishCertificate(certificate@)
            },
            IdPToWitnessMessage::StateQuery => IdPToWitnessMessageView::StateQuery,
            IdPToWitnessMessage::PublishCertificateQuery(query) => {
                IdPToWitnessMessageView::PublishCertificateQuery(*query)
            },
        }
    }
}

/// What a witness answers.
#[derive(Debug)]
pub enum WitnessToIdPMessage {
    PublishVote(WitnessResult<PublishVote>),
    State(WitnessResult<State>),
    PublishCertificateResponse(SerializedPublishCertificateMessage),
}

/// A `WitnessToIdPMessage`, with what it holds seen through views.
pub enum WitnessToIdPMessageView {
    PublishVote(Result<PublishVote, WitnessErrorView>),
    State(Result<State, WitnessErrorView>),
    PublishCertificateResponse(Seq<u8>),
}

impl View for WitnessToIdPMessage {
    type V = WitnessToIdPMessageView;

    open spec fn view(&self) -> WitnessToIdPMessageView {
        match self {
            WitnessToIdPMessage::PublishVote(result) => WitnessToIdPMessageView::PublishVote(
                seen(*result),
            ),
            WitnessToIdPMessage::State(result) => WitnessToIdPMessageView::State(seen(*result)),
            WitnessToIdPMessage::PublishCertificateResponse(bytes) => {
                WitnessToIdPMessageView::PublishCertificateResponse(bytes@)
            },
        }
    }
}

/// The bytes of a message error: the tag of its kind, then what it holds.
pub open spec fn message_error_bytes(error: MessageErrorView) -> Seq<u8> {
    match error {
        MessageErrorView::MalformedNotificationId(id) => tag_bytes(0) + id@,
        MessageErrorView::InvalidSignature(text) => tag_bytes(1) + text_bytes(text),
        MessageErrorView::UnknownWitness(name) => tag_bytes(2) + name@,
        MessageErrorView::WitnessReuse(name) => tag_bytes(3) + name@,
        MessageErrorView::CertificateRequiresQuorum => tag_bytes(4),
    }
}

/// Reads a message error from the start of `bytes`.
pub open spec fn parse_message_error(bytes: Seq<u8>) -> Option<(MessageErrorView, int)> {
    match parse_tag(bytes) {
        Some(tag) => {
            let body = bytes.skip(4);
            if tag == 0 {
                if body.len() >= 32 {
                    Some(
                        (
                            MessageErrorView::MalformedNotificationId(
                                digest_from(body.subrange(0, 32)),
                            ),
                            36,
                        ),
                    )
                } else {
                    None
                }
            } else if tag == 1 {
                match parse_text(body) {
                    Some((text, taken)) => Some(
                        (MessageErrorView::InvalidSignature(text), 4 + taken),
                    ),
                    None => None,
                }
            } else if tag == 2 {
                if body.len() >= 32 {
                    Some((MessageErrorView::UnknownWitness(key_from(body.subrange(0, 32))), 36))
                } else {
                    None
                }
            } else if tag == 3 {
                if body.len() >= 32 {
                    Some((MessageErrorView::WitnessReuse(key_from(body.subrange(0, 32))), 36))
                } else {
                    None
                }
            } else if tag == 4 {
                Some((MessageErrorView::CertificateRequiresQuorum, 4))
            } else {
                None
            }
        },
        None => None,
    }
}

/// Whether the text of a message error is short enough to be sent: its
/// length in bytes fits in 64 bits.
pub open spec fn message_error_sendable(error: MessageErrorView) -> bool {
    error matches MessageErrorView::InvalidSignature(text) ==> encode_utf8(text).len() <= u64::MAX
}

/// A message error reads back as itself.
pub proof fn lemma_message_error_round_trip(error: MessageErrorView, rest: Seq<u8>)
    requires
        message_error_sendable(error),
    ensures
        parse_message_error(message_error_bytes(error) + rest) == Some(
            (error, message_error_bytes(error).len() as int),
        ),
{
    let all = message_error_bytes(error) + rest;
    match error {
        MessageErrorView::MalformedNotificationId(id) => {
            lemma_tag_round_trip(0, id@ + rest);
            assert(all =~= tag_bytes(0) + (id@ + rest));
            lemma_digest_from(id);
            assert((id@ + rest).subrange(0, 32) =~= id@);
        },
        MessageErrorView::InvalidSignature(text) => {
            lemma_tag_round_trip(1, text_bytes(text) + rest);
            assert(all =~= tag_bytes(1) + (text_bytes(text) + rest));
            lemma_text_round_trip(text, rest);
        },
        MessageErrorView::UnknownWitness(name) => {
            lemma_tag_round_trip(2, name@ + rest);
            assert(all =~= tag_bytes(2) + (name@ + rest));
            lemma_key_from(name);
            assert((name@ + rest).subrange(0, 32) =~= name@);
        },
        MessageErrorView::WitnessReuse(name) => {
            lemma_tag_round_trip(3, name@ + rest);
            assert(all =~= tag_bytes(3) + (name@ + rest));
            lemma_key_from(name);
            assert((name@ + rest).subrange(0, 32) =~= name@);
        },
        MessageErrorView::CertificateRequiresQuorum => {
            lemma_tag_round_trip(4, rest);
        },
    }
}

/// Appends a message error.
pub fn put_message_error(out: &mut Vec<u8>, error: &MessageError)
    ensures
        final(out)@ == old(out)@ + message_error_bytes(error@),
{
    match error {
        MessageError::MalformedNotificationId(id) => {
            put_tag(out, 0);
            put(out, &id.0);
        },
        MessageError::InvalidSignature(text) => {
            put_tag(out, 1);
            put_text(out, text);
        },
        MessageError::UnknownWitness(name) => {
            put_tag(out, 2);
            put(out, &name.0);
        },
        MessageError::WitnessReuse(name) => {
            put_tag(out, 3);
            put(out, &name.0);
        },
        MessageError::CertificateRequiresQuorum => {
            put_tag(out, 4);
        },
    }
    assert(out@ =~= old(out)@ + message_error_bytes(error@));
}

/// Reads a message error at `at`. The result holds the position behind it.
pub fn read_message_error(bytes: &[u8], at: usize) -> (read: Option<(MessageError, usize)>)
    requires
        at <= bytes@.len(),
    ensures
        match parse_message_error(bytes@.skip(at as int)) {
            Some((error, taken)) => read matches Some((found, end)) && found@ == error && end == at
                + taken && end <= bytes@.len(),
            None => read is None,
        },
{
    let tag = match read_tag(bytes, at) {
        Some(tag) => tag,
        None => {
            return None;
        },
    };
    let start = at + 4;
    let ghost body = bytes@.skip(at as int).skip(4);
    proof {
        assert(body =~= bytes@.skip(start as int));
    }
    if tag == 0 {
        if bytes.len() - start < 32 {
            return None;
        }
        let id = Digest(read_32(bytes, start));
        proof {
            assert(bytes@.subrange(start as int, start + 32) =~= body.subrange(0, 32));
            lemma_digest_from(id);
        }
        Some((MessageError::MalformedNotificationId(id), start + 32))
    } else if tag == 1 {
        match read_text(bytes, start) {
            Some((text, end)) => Some((MessageError::InvalidSignature(text), end)),
            None => None,
        }
    } else if tag == 2 {
        if bytes.len() - start < 32 {
            return None;
        }
        let name = PublicKey(read_32(bytes, start));
        proof {
            assert(bytes@.subrange(start as int, start + 32) =~= body.subrange(0, 32));
            lemma_key_from(name);
        }
        Some((MessageError::UnknownWitness(name), start + 32))
    } else if tag == 3 {
        if bytes.len() - start < 32 {
            return None;
        }
        let name = PublicKey(read_32(bytes, start));
        proof {
            assert(bytes@.subrange(start as int, start + 32) =~= body.subrange(0, 32));
            lemma_key_from(name);
        }
        Some((MessageError::WitnessReuse(name), start + 32))
    } else if tag == 4 {
        Some((MessageError::CertificateRequiresQuorum, start))
    } else {
        None
    }
}

/// The bytes of a witness's error: the tag of its kind, then what it holds.
pub open spec fn witness_error_bytes(error: WitnessErrorView) -> Seq<u8> {
    match error {
        WitnessErrorView::MessageError(inner) => tag_bytes(0) + message_error_bytes(inner),
        WitnessErrorView::UnexpectedSequenceNumber { expected, got } => tag_bytes(1) + number_bytes(
            expected,
        ) + number_bytes(got),
        WitnessErrorView::ConflictingNotification { lock_root, received_root } => tag_bytes(2)
            + lock_root@ + received_root@,
        WitnessErrorView::MissingEarlierCertificates(current) => tag_bytes(3) + number_bytes(
            current,
        ),
    }
}

/// Reads a witness's error from the start of `bytes`.
pub open spec fn parse_witness_error(bytes: Seq<u8>) -> Option<(WitnessErrorView, int)> {
    match parse_tag(bytes) {
        Some(tag) => {
            let body = bytes.skip(4);
            if tag == 0 {
                match parse_message_error(body) {
                    Some((inner, taken)) => Some((WitnessErrorView::MessageError(inner), 4 + taken)),
                    None => None,
                }
            } else if tag == 1 {
                if body.len() >= 16 {
                    Some(
                        (
                            WitnessErrorView::UnexpectedSequenceNumber {
                                expected: spec_u64_from_le_bytes(body.subrange(0, 8)),
                                got: spec_u64_from_le_bytes(body.subrange(8, 16)),
                            },
                            20,
                        ),
                    )
                } else {
                    None
                }
            } else if tag == 2 {
                if body.len() >= 64 {
                    Some(
                        (
                            WitnessErrorView::ConflictingNotification {
                                lock_root: digest_from(body.subrange(0, 32)),
                                received_root: digest_from(body.subrange(32, 64)),
                            },
                            68,
                        ),
                    )
                } else {
                    None
                }
            } else if tag == 3 {
                if body.len() >= 8 {
                    Some(
                        (
                            WitnessErrorView::MissingEarlierCertificates(
                                spec_u64_from_le_bytes(body.subrange(0, 8)),
                            ),
                            12,
                        ),
                    )
                } else {
                    None
                }
            } else {
                None
            }
        },
        None => None,
    }
}

/// Whether a witness's error can be sent: the text inside, if any, is short
/// enough.
pub open spec fn witness_error_sendable(error: WitnessErrorView) -> bool {
    error matches WitnessErrorView::MessageError(inner) ==> message_error_sendable(inner)
}

proof fn lemma_number_field(number: u64)
    ensures
        number_bytes(number).len() == 8,
        spec_u64_from_le_bytes(number_bytes(number)) == number,
{
    lemma_number_round_trip(number, Seq::empty());
    assert(number_bytes(number) + Seq::<u8>::empty() =~= number_bytes(number));
    assert(number_bytes(number).subrange(0, 8) =~= number_bytes(number));
}

/// A witness's error reads back as itself.
pub proof fn lemma_witness_error_round_trip(error: WitnessErrorView, rest: Seq<u8>)
    requires
        witness_error_sendable(error),
    ensures
        parse_witness_error(witness_error_bytes(error) + rest) == Some(
            (error, witness_error_bytes(error).len() as int),
        ),
{
    let all = witness_error_bytes(error) + rest;
    match error {
        WitnessErrorView::MessageError(inner) => {
            lemma_tag_round_trip(0, message_error_bytes(inner) + rest);
            assert(all =~= tag_bytes(0) + (message_error_bytes(inner) + rest));
            lemma_message_error_round_trip(inner, rest);
        },
        WitnessErrorView::UnexpectedSequenceNumber { expected, got } => {
            let body = number_bytes(expected) + number_bytes(got) + rest;
            lemma_tag_round_trip(1, body);
            assert(all =~= tag_bytes(1) + body);
            lemma_number_field(expected);
            lemma_number_field(got);
            assert(body.subrange(0, 8) =~= number_bytes(expected));
            assert(body.subrange(8, 16) =~= number_bytes(got));
        },
        WitnessErrorView::ConflictingNotification { lock_root, received_root } => {
            let body = lock_root@ + received_root@ + rest;
            lemma_tag_round_trip(2, body);
            assert(all =~= tag_bytes(2) + body);
            lemma_digest_from(lock_root);
            lemma_digest_from(received_root);
            assert(body.subrange(0, 32) =~= lock_root@);
            assert(body.subrange(32, 64) =~= received_root@);
        },
        WitnessErrorView::MissingEarlierCertificates(current) => {
            let body = number_bytes(current) + rest;
            lemma_tag_round_trip(3, body);
            assert(all =~= tag_bytes(3) + body);
            lemma_number_field(current);
            assert(body.subrange(0, 8) =~= number_bytes(current));
        },
    }
}

/// Appends a witness's error.
pub fn put_witness_error(out: &mut Vec<u8>, error: &WitnessError)
    ensures
        final(out)@ == old(out)@ + witness_error_bytes(error@),
{
    match error {
        WitnessError::MessageError(inner) => {
            put_tag(out, 0);
            put_message_error(out, inner);
        },
        WitnessError::UnexpectedSequenceNumber { expected, got } => {
            put_tag(out, 1);
            put_number(out, *expected);
            put_number(out, *got);
        },
        WitnessError::ConflictingNotification { lock_root, received_root } => {
            put_tag(out, 2);
            put(out, &lock_root.0);
            put(out, &received_root.0);
        },
        WitnessError::MissingEarlierCertificates(current) => {
            put_tag(out, 3);
            put_number(out, *current);
        },
    }
    assert(out@ =~= old(out)@ + witness_error_bytes(error@));
}

/// Reads a witness's error at `at`. The result holds the position behind it.
pub fn read_witness_error(bytes: &[u8], at: usize) -> (read: Option<(WitnessError, usize)>)
    requires
        at <= bytes@.len(),
    ensures
        match parse_witness_error(bytes@.skip(at as int)) {
            Some((error, taken)) => read matches Some((found, end)) && found@ == error && end == at
                + taken && end <= bytes@.len(),
            None => read is None,
        },
{
    let tag = match read_tag(bytes, at) {
        Some(tag) => tag,
        None => {
            return None;
        },
    };
    let start = at + 4;
    let ghost body = bytes@.skip(at as int).skip(4);
    proof {
        assert(body =~= bytes@.skip(start as int));
    }
    if tag == 0 {
        match read_message_error(bytes, start) {
            Some((inner, end)) => Some((WitnessError::MessageError(inner), end)),
            None => None,
        }
    } else if tag == 1 {
        if bytes.len() - start < 16 {
            return None;
        }
        let expected = match read_number(bytes, start) {
            Some((number, _)) => number,
            None => {
                return None;
            },
        };
        let got = match read_number(bytes, start + 8) {
            Some((number, _)) => number,
            None => {
                return None;
            },
        };
        proof {
            assert(bytes@.skip(start + 8).subrange(0, 8) =~= body.subrange(8, 16));
        }
        Some((WitnessError::UnexpectedSequenceNumber { expected, got }, start + 16))
    } else if tag == 2 {
        if bytes.len() - start < 64 {
            return None;
        }
        let lock_root = Digest(read_32(bytes, start));
        let received_root = Digest(read_32(bytes, start + 32));
        proof {
            assert(bytes@.subrange(start as int, start + 32) =~= body.subrange(0, 32));
            assert(bytes@.subrange(start + 32, start + 64) =~= body.subrange(32, 64));
            lemma_digest_from(lock_root);
            lemma_digest_from(received_root);
        }
        Some((WitnessError::ConflictingNotification { lock_root, received_root }, start + 64))
    } else if tag == 3 {
        match read_number(bytes, start) {
            Some((current, end)) => Some((WitnessError::MissingEarlierCertificates(current), end)),
            None => None,
        }
    } else {
        None
    }
}

/// The bytes of a request to a witness: the tag of its kind, then what it
/// holds.
pub open spec fn request_bytes(message: IdPToWitnessMessageView) -> Seq<u8> {
    match message {
        IdPToWitnessMessageView::PublishNotification(notification) => tag_bytes(0)
            + notification_bytes(notification),
        IdPToWitnessMessageView::PublishCertificate(certificate) => tag_bytes(1)
            + certificate_bytes(certificate),
        IdPToWitnessMessageView::StateQuery => tag_bytes(2),
        IdPToWitnessMessageView::PublishCertificateQuery(query) => tag_bytes(3) + query_bytes(
            query,
        ),
    }
}

/// Reads a request to a witness from the start of `bytes`. What follows the
/// message is not looked at.
pub open spec fn parse_request(bytes: Seq<u8>) -> Option<IdPToWitnessMessageView> {
    match parse_tag(bytes) {
        Some(tag) => {
            let body = bytes.skip(4);
            if tag == 0 {
                match parse_notification(body) {
                    Some((notification, _)) => Some(
                        IdPToWitnessMessageView::PublishNotification(notification),
                    ),
                    None => None,
                }
            } else if tag == 1 {
                match parse_certificate(body) {
                    Some((certificate, _)) => Some(
                        IdPToWitnessMessageView::PublishCertificate(certificate),
                    ),
                    None => None,
                }
            } else if tag == 2 {
                Some(IdPToWitnessMessageView::StateQuery)
            } else if tag == 3 {
                match parse_query(body) {
                    Some((query, _)) => Some(IdPToWitnessMessageView::PublishCertificateQuery(query)),
                    None => None,
                }
            } else {
                None
            }
        },
        None => None,
    }
}

/// Whether a request can be sent: the lengths in it fit in 64 bits.
pub open spec fn request_sendable(message: IdPToWitnessMessageView) -> bool {
    match message {
        IdPToWitnessMessageView::PublishNotification(notification) => notification.proof.len()
            <= u64::MAX,
        IdPToWitnessMessageView::PublishCertificate(certificate) => certificate.votes.len()
            <= u64::MAX,
        _ => true,
    }
}

/// Round trip: a request to a witness reads back as itself.
pub proof fn lemma_request_round_trip(message: IdPToWitnessMessageView, rest: Seq<u8>)
    requires
        request_sendable(message),
    ensures
        parse_request(request_bytes(message) + rest) == Some(message),
{
    let all = request_bytes(message) + rest;
    match message {
        IdPToWitnessMessageView::PublishNotification(notification) => {
            lemma_tag_round_trip(0, notification_bytes(notification) + rest);
            assert(all =~= tag_bytes(0) + (notification_bytes(notification) + rest));
            lemma_notification_round_trip(notification, rest);
        },
        IdPToWitnessMessageView::PublishCertificate(certificate) => {
            lemma_tag_round_trip(1, certificate_bytes(certificate) + rest);
            assert(all =~= tag_bytes(1) + (certificate_bytes(certificate) + rest));
            lemma_certificate_round_trip(certificate, rest);
        },
        IdPToWitnessMessageView::StateQuery => {
            lemma_tag_round_trip(2, rest);
        },
        IdPToWitnessMessageView::PublishCertificateQuery(query) => {
            lemma_tag_round_trip(3, query_bytes(query) + rest);
            assert(all =~= tag_bytes(3) + (query_bytes(query) + rest));
            lemma_query_round_trip(query, rest);
        },
    }
}

/// Round trip: a request as it is written reads back as itself.
pub proof fn lemma_request_reads_back(message: IdPToWitnessMessageView)
    requires
        request_sendable(message),
    ensures
        parse_request(request_bytes(message)) == Some(message),
{
    lemma_request_round_trip(message, Seq::empty());
    assert(request_bytes(message) + Seq::<u8>::empty() =~= request_bytes(message));
}

/// The bytes of an answer of a witness, `Ok` or `Err`: a tag of 0 and the
/// value, or a tag of 1 and the error.
pub open spec fn vote_result_bytes(result: Result<PublishVote, WitnessErrorView>) -> Seq<u8> {
    match result {
        Ok(vote) => tag_bytes(0) + vote_bytes(vote),
        Err(error) => tag_bytes(1) + witness_error_bytes(error),
    }
}

/// Reads a vote or an error from the start of `bytes`.
pub open spec fn parse_vote_result(bytes: Seq<u8>) -> Option<
    (Result<PublishVote, WitnessErrorView>, int),
> {
    match parse_tag(bytes) {
        Some(tag) => {
            let body = bytes.skip(4);
            if tag == 0 {
                match parse_vote(body) {
                    Some((vote, taken)) => Some((Ok(vote), 4 + taken)),
                    None => None,
                }
            } else if tag == 1 {
                match parse_witness_error(body) {
                    Some((error, taken)) => Some((Err(error), 4 + taken)),
                    None => None,
                }
            } else {
                None
            }
        },
        None => None,
    }
}

/// The bytes of a state or an error.
pub open spec fn state_result_bytes(result: Result<State, WitnessErrorView>) -> Seq<u8> {
    match result {
        Ok(state) => tag_bytes(0) + state_bytes(state),
        Err(error) => tag_bytes(1) + witness_error_bytes(error),
    }
}

/// Reads a state or an error from the start of `bytes`.
pub open spec fn parse_state_result(bytes: Seq<u8>) -> Option<
    (Result<State, WitnessErrorView>, int),
> {
    match parse_tag(bytes) {
        Some(tag) => {
            let body = bytes.skip(4);
            if tag == 0 {
                match parse_state(body) {
                    Some((state, taken)) => Some((Ok(state), 4 + taken)),
                    None => None,
                }
            } else if tag == 1 {
                match parse_witness_error(body) {
                    Some((error, taken)) => Some((Err(error), 4 + taken)),
                    None => None,
                }
            } else {
                None
            }
        },
        None => None,
    }
}

/// The bytes of an answer of a witness: the tag of its kind, then what it
/// holds.
pub open spec fn reply_bytes(message: WitnessToIdPMessageView) -> Seq<u8> {
    match message {
        WitnessToIdPMessageView::PublishVote(result) => tag_bytes(0) + vote_result_bytes(result),
        WitnessToIdPMessageView::State(result) => tag_bytes(1) + state_result_bytes(result),
        WitnessToIdPMessageView::PublishCertificateResponse(bytes) => tag_bytes(2) + blob_bytes(
            bytes,
        ),
    }
}

/// Reads an answer of a witness from the start of `bytes`. What follows the
/// message is not looked at.
pub open spec fn parse_reply(bytes: Seq<u8>) -> Option<WitnessToIdPMessageView> {
    match parse_tag(bytes) {
        Some(tag) => {
            let body = bytes.skip(4);
            if tag == 0 {
                match parse_vote_result(body) {
                    Some((result, _)) => Some(WitnessToIdPMessageView::PublishVote(result)),
                    None => None,
                }
            } else if tag == 1 {
                match parse_state_result(body) {
                    Some((result, _)) => Some(WitnessToIdPMessageView::State(result)),
                    None => None,
                }
            } else if tag == 2 {
                match parse_blob(body) {
                    Some((blob, _)) => Some(
                        WitnessToIdPMessageView::PublishCertificateResponse(blob),
                    ),
                    None => None,
                }
            } else {
                None
            }
        },
        None => None,
    }
}

/// Whether an answer can be sent: the lengths in it fit in 64 bits.
pub open spec fn reply_sendable(message: WitnessToIdPMessageView) -> bool {
    match message {
        WitnessToIdPMessageView::PublishVote(Err(error)) => witness_error_sendable(error),
        WitnessToIdPMessageView::State(Err(error)) => witness_error_sendable(error),
        WitnessToIdPMessageView::PublishCertificateResponse(bytes) => bytes.len() <= u64::MAX,
        _ => true,
    }
}

/// A vote or an error reads back as itself.
pub proof fn lemma_vote_result_round_trip(
    result: Result<PublishVote, WitnessErrorView>,
    rest: Seq<u8>,
)
    requires
        result matches Err(error) ==> witness_error_sendable(error),
    ensures
        parse_vote_result(vote_result_bytes(result) + rest) == Some(
            (result, vote_result_bytes(result).len() as int),
        ),
{
    let all = vote_result_bytes(result) + rest;
    match result {
        Ok(vote) => {
            lemma_tag_round_trip(0, vote_bytes(vote) + rest);
            assert(all =~= tag_bytes(0) + (vote_bytes(vote) + rest));
            lemma_vote_round_trip(vote, rest);
        },
        Err(error) => {
            lemma_tag_round_trip(1, witness_error_bytes(error) + rest);
            assert(all =~= tag_bytes(1) + (witness_error_bytes(error) + rest));
            lemma_witness_error_round_trip(error, rest);
        },
    }
}

/// A state or an error reads back as itself.
pub proof fn lemma_state_result_round_trip(result: Result<State, WitnessErrorView>, rest: Seq<u8>)
    requires
        result matches Err(error) ==> witness_error_sendable(error),
    ensures
        parse_state_result(state_result_bytes(result) + rest) == Some(
            (result, state_result_bytes(result).len() as int),
        ),
{
    let all = state_result_bytes(result) + rest;
    match result {
        Ok(state) => {
            lemma_tag_round_trip(0, state_bytes(state) + rest);
            assert(all =~= tag_bytes(0) + (state_bytes(state) + rest));
            lemma_state_round_trip(state, rest);
        },
        Err(error) => {
            lemma_tag_round_trip(1, witness_error_bytes(error) + rest);
            assert(all =~= tag_bytes(1) + (witness_error_bytes(error) + rest));
            lemma_witness_error_round_trip(error, rest);
        },
    }
}

/// Round trip: an answer of a witness reads back as itself, votes, states
/// and errors alike.
pub proof fn lemma_reply_round_trip(message: WitnessToIdPMessageView, rest: Seq<u8>)
    requires
        reply_sendable(message),
    ensures
        parse_reply(reply_bytes(message) + rest) == Some(message),
{
    let all = reply_bytes(message) + rest;
    match message {
        WitnessToIdPMessageView::PublishVote(result) => {
            let body = vote_result_bytes(result) + rest;
            lemma_tag_round_trip(0, body);
            assert(all =~= tag_bytes(0) + body);
            lemma_vote_result_round_trip(result, rest);
        },
        WitnessToIdPMessageView::State(result) => {
            let body = state_result_bytes(result) + rest;
            lemma_tag_round_trip(1, body);
            assert(all =~= tag_bytes(1) + body);
            lemma_state_result_round_trip(result, rest);
        },
        WitnessToIdPMessageView::PublishCertificateResponse(bytes) => {
            lemma_tag_round_trip(2, blob_bytes(bytes) + rest);
            assert(all =~= tag_bytes(2) + (blob_bytes(bytes) + rest));
            lemma_blob_round_trip(bytes, rest);
        },
    }
}

/// Round trip: an answer of a witness as it is written reads back as itself.
pub proof fn lemma_reply_reads_back(message: WitnessToIdPMessageView)
    requires
        reply_sendable(message),
    ensures
        parse_reply(reply_bytes(message)) == Some(message),
{
    lemma_reply_round_trip(message, Seq::empty());
    assert(reply_bytes(message) + Seq::<u8>::empty() =~= reply_bytes(message));
}

impl IdPToWitnessMessage {
    /// The message in its wire format.
    pub fn serialize(&self) -> (bytes: Vec<u8>)
        ensures
            bytes@ == request_bytes(self@),
    {
        let mut out: Vec<u8> = Vec::new();
        match self {
            IdPToWitnessMessage::PublishNotification(notification) => {
                put_tag(&mut out, 0);
                put_notification(&mut out, notification);
            },
            IdPToWitnessMessage::PublishCertificate(certificate) => {
                put_tag(&mut out, 1);
                put_certificate(&mut out, certificate);
            },
            IdPToWitnessMessage::StateQuery => {
                put_tag(&mut out, 2);
            },
            IdPToWitnessMessage::PublishCertificateQuery(query) => {
                put_tag(&mut out, 3);
                put_number(&mut out, query.sequence_number);
            },
        }
        assert(out@ =~= request_bytes(self@));
        out
    }

    /// The message that `bytes` begin with, if they begin with one.
    pub fn deserialize(bytes: &[u8]) -> (message: Option<IdPToWitnessMessage>)
        ensures
            match parse_request(bytes@) {
                Some(found) => message matches Some(read) && read@ == found,
                None => message is None,
            },
    {
        proof {
            assert(bytes@.skip(0) =~= bytes@);
        }
        let tag = match read_tag(bytes, 0) {
            Some(tag) => tag,
            None => {
                return None;
            },
        };
        if tag == 0 {
            match read_notification(bytes, 4) {
                Some((notification, _)) => Some(
                    IdPToWitnessMessage::PublishNotification(notification),
                ),
                None => None,
            }
        } else if tag == 1 {
            match read_certificate(bytes, 4) {
                Some((certificate, _)) => Some(IdPToWitnessMessage::PublishCertificate(certificate)),
                None => None,
            }
        } else if tag == 2 {
            Some(IdPToWitnessMessage::StateQuery)
        } else if tag == 3 {
            match read_number(bytes, 4) {
                Some((number, _)) => Some(
                    IdPToWitnessMessage::PublishCertificateQuery(
                        PublishCertificateQuery { sequence_number: number },
                    ),
                ),
                None => None,
            }
        } else {
            None
        }
    }
}

/// Appends a vote or an error.
pub fn put_vote_result(out: &mut Vec<u8>, result: &WitnessResult<PublishVote>)
    ensures
        final(out)@ == old(out)@ + vote_result_bytes(seen(*result)),
{
    match result {
        Ok(vote) => {
            put_tag(out, 0);
            put_vote(out, vote);
        },
        Err(error) => {
            put_tag(out, 1);
            put_witness_error(out, error);
        },
    }
    assert(out@ =~= old(out)@ + vote_result_bytes(seen(*result)));
}

/// Appends a state or an error.
pub fn put_state_result(out: &mut Vec<u8>, result: &WitnessResult<State>)
    ensures
        final(out)@ == old(out)@ + state_result_bytes(seen(*result)),
{
    match result {
        Ok(state) => {
            put_tag(out, 0);
            put_state(out, state);
        },
        Err(error) => {
            put_tag(out, 1);
            put_witness_error(out, error);
        },
    }
    assert(out@ =~= old(out)@ + state_result_bytes(seen(*result)));
}

/// Reads a vote or an error at `at`. The result holds the position behind
/// it.
pub fn read_vote_result(bytes: &[u8], at: usize) -> (read: Option<
    (WitnessResult<PublishVote>, usize),
>)
    requires
        at <= bytes@.len(),
    ensures
        match parse_vote_result(bytes@.skip(at as int)) {
            Some((result, taken)) => read matches Some((found, end)) && seen(found) == result
                && end == at + taken && end <= bytes@.len(),
            None => read is None,
        },
{
    let tag = match read_tag(bytes, at) {
        Some(tag) => tag,
        None => {
            return None;
        },
    };
    proof {
        assert(bytes@.skip(at as int).skip(4) =~= bytes@.skip(at + 4));
    }
    if tag == 0 {
        match read_vote(bytes, at + 4) {
            Some((vote, end)) => Some((Ok(vote), end)),
            None => None,
        }
    } else if tag == 1 {
        match read_witness_error(bytes, at + 4) {
            Some((error, end)) => Some((Err(error), end)),
            None => None,
        }
    } else {
        None
    }
}

/// Reads a state or an error at `at`. The result holds the position behind
/// it.
pub fn read_state_result(bytes: &[u8], at: usize) -> (read: Option<(WitnessResult<State>, usize)>)
    requires
        at <= bytes@.len(),
    ensures
        match parse_state_result(bytes@.skip(at as int)) {
            Some((result, taken)) => read matches Some((found, end)) && seen(found) == result
                && end == at + taken && end <= bytes@.len(),
            None => read is None,
        },
{
    let tag = match read_tag(bytes, at) {
        Some(tag) => tag,
        None => {
            return None;
        },
    };
    proof {
        assert(bytes@.skip(at as int).skip(4) =~= bytes@.skip(at + 4));
    }
    if tag == 0 {
        match read_state(bytes, at + 4) {
            Some((state, end)) => Some((Ok(state), end)),
            None => None,
        }
    } else if tag == 1 {
        match read_witness_error(bytes, at + 4) {
            Some((error, end)) => Some((Err(error), end)),
            None => None,
        }
    } else {
        None
    }
}

impl WitnessToIdPMessage {
    /// The message in its wire format.
    pub fn serialize(&self) -> (bytes: Vec<u8>)
        ensures
            bytes@ == reply_bytes(self@),
    {
        let mut out: Vec<u8> = Vec::new();
        match self {
            WitnessToIdPMessage::PublishVote(result) => {
                put_tag(&mut out, 0);
                put_vote_result(&mut out, result);
            },
            WitnessToIdPMessage::State(result) => {
                put_tag(&mut out, 1);
                put_state_result(&mut out, result);
            },
            WitnessToIdPMessage::PublishCertificateResponse(certificate) => {
                put_tag(&mut out, 2);
                put_blob(&mut out, certificate.as_slice());
            },
        }
        assert(out@ =~= reply_bytes(self@));
        out
    }

    /// The message that `bytes` begin with, if they begin with one.
    pub fn deserialize(bytes: &[u8]) -> (message: Option<WitnessToIdPMessage>)
        ensures
            match parse_reply(bytes@) {
                Some(found) => message matches Some(read) && read@ == found,
                None => message is None,
            },
    {
        proof {
            assert(bytes@.skip(0) =~= bytes@);
        }
        let tag = match read_tag(bytes, 0) {
            Some(tag) => tag,
            None => {
                return None;
            },
        };
        if tag == 0 {
            match read_vote_result(bytes, 4) {
                Some((result, _)) => Some(WitnessToIdPMessage::PublishVote(result)),
                None => None,
            }
        } else if tag == 1 {
            match read_state_result(bytes, 4) {
                Some((result, _)) => Some(WitnessToIdPMessage::State(result)),
                None => None,
            }
        } else if tag == 2 {
            match read_blob(bytes, 4) {
                Some((certificate, _)) => Some(
                    WitnessToIdPMessage::PublishCertificateResponse(certificate),
                ),
                None => None,
            }
        } else {
            None
        }
    }
}

} // verus!
