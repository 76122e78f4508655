//! The wire format of votes, locks, states, queries, notifications and
//! certificates: the fields in their order, each as the building blocks
//! write it.

use crate::crypto::{Digest, PublicKey, Signature};
use crate::publish::{
    Endorsement, PublishCertificate, PublishCertificateView, PublishNotification,
    PublishNotificationView, PublishVote,
};
use crate::sync::{PublishCertificateQuery, State};
use crate::wire::{
    blob_bytes, digest_from, key_from, lemma_blob_round_trip, lemma_digest_from, lemma_key_from,
    lemma_number_round_trip, lemma_signature_from, number_bytes, parse_blob, parse_number, put,
    put_blob, put_number, read_32, read_64, read_blob, read_number, signature_from,
};
use vstd::bytes::spec_u64_from_le_bytes;
use vstd::prelude::*;

verus! {

/// The bytes of a vote: root, sequence number, author, signature; 136 in
/// all.
pub open spec fn vote_bytes(vote: PublishVote) -> Seq<u8> {
    vote.root@ + number_bytes(vote.sequence_number) + vote.author@ + vote.signature@
}

/// Reads a vote from the start of `bytes`.
pub open spec fn parse_vote(bytes: Seq<u8>) -> Option<(PublishVote, int)> {
    if bytes.len() >= 136 {
        Some(
            (
                PublishVote {
                    root: digest_from(bytes.subrange(0, 32)),
                    sequence_number: spec_u64_from_le_bytes(bytes.subrange(32, 40)),
                    author: key_from(bytes.subrange(40, 72)),
                    signature: signature_from(bytes.subrange(72, 136)),
                },
                136,
            ),
        )
    } else {
        None
    }
}

/// A vote is 136 bytes, and reads back as itself.
pub proof fn lemma_vote_round_trip(vote: PublishVote, rest: Seq<u8>)
    ensures
        vote_bytes(vote).len() == 136,
        parse_vote(vote_bytes(vote) + rest) == Some((vote, 136int)),
{
    let all = vote_bytes(vote) + rest;
    lemma_digest_from(vote.root);
    lemma_key_from(vote.author);
    lemma_signature_from(vote.signature);
    lemma_number_round_trip(vote.sequence_number, Seq::empty());
    assert(number_bytes(vote.sequence_number) + Seq::<u8>::empty() =~= number_bytes(
        vote.sequence_number,
    ));
    assert(number_bytes(vote.sequence_number).subrange(0, 8) =~= number_bytes(
        vote.sequence_number,
    ));
    assert(all.subrange(0, 32) =~= vote.root@);
    assert(all.subrange(32, 40) =~= number_bytes(vote.sequence_number));
    assert(all.subrange(40, 72) =~= vote.author@);
    assert(all.subrange(72, 136) =~= vote.signature@);
}

/// Appends a vote.
pub fn put_vote(out: &mut Vec<u8>, vote: &PublishVote)
    ensures
        final(out)@ == old(out)@ + vote_bytes(*vote),
{
    put(out, &vote.root.0);
    put_number(out, vote.sequence_number);
    put(out, &vote.author.0);
    put(out, &vote.signature.0);
    assert(out@ =~= old(out)@ + vote_bytes(*vote));
}

/// Reads a vote at `at`. The result holds the position behind it.
pub fn read_vote(bytes: &[u8], at: usize) -> (read: Option<(PublishVote, usize)>)
    requires
        at <= bytes@.len(),
    ensures
        match parse_vote(bytes@.skip(at as int)) {
            Some((vote, taken)) => read == Some((vote, (at + taken) as usize)) && at + taken
                <= bytes@.len(),
            None => read is None,
        },
{
    if bytes.len() - at < 136 {
        return None;
    }
    let ghost tail = bytes@.skip(at as int);
    let root = Digest(read_32(bytes, at));
    let number = match read_number(bytes, at + 32) {
        Some((number, _)) => number,
        None => {
            return None;
        },
    };
    let author = PublicKey(read_32(bytes, at + 40));
    let signature = Signature(read_64(bytes, at + 72));
    proof {
        assert(bytes@.subrange(at as int, at + 32) =~= tail.subrange(0, 32));
        assert(bytes@.skip(at + 32).subrange(0, 8) =~= tail.subrange(32, 40));
        assert(bytes@.subrange(at + 40, at + 72) =~= tail.subrange(40, 72));
        assert(bytes@.subrange(at + 72, at + 136) =~= tail.subrange(72, 136));
        lemma_digest_from(root);
        lemma_key_from(author);
        lemma_signature_from(signature);
    }
    Some((PublishVote { root, sequence_number: number, author, signature }, at + 136))
}

/// The bytes of a lock: one zero byte where there is none, else a byte of
/// one and the vote.
pub open spec fn lock_bytes(lock: Option<PublishVote>) -> Seq<u8> {
    match lock {
        None => seq![0u8],
        Some(vote) => seq![1u8] + vote_bytes(vote),
    }
}

/// Reads a lock from the start of `bytes`.
pub open spec fn parse_lock(bytes: Seq<u8>) -> Option<(Option<PublishVote>, int)> {
    if bytes.len() >= 1 && bytes[0] == 0 {
        Some((None, 1))
    } else if bytes.len() >= 1 && bytes[0] == 1 {
        match parse_vote(bytes.skip(1)) {
            Some((vote, _)) => Some((Some(vote), 137)),
            None => None,
        }
    } else {
        None
    }
}

/// A lock reads back as itself.
pub proof fn lemma_lock_round_trip(lock: Option<PublishVote>, rest: Seq<u8>)
    ensures
        parse_lock(lock_bytes(lock) + rest) == Some((lock, lock_bytes(lock).len() as int)),
{
    match lock {
        Some(vote) => {
            lemma_vote_round_trip(vote, rest);
            assert((lock_bytes(lock) + rest).skip(1) =~= vote_bytes(vote) + rest);
        },
        None => {},
    }
}

/// Appends a lock.
pub fn put_lock(out: &mut Vec<u8>, lock: &Option<PublishVote>)
    ensures
        final(out)@ == old(out)@ + lock_bytes(*lock),
{
    match lock {
        None => {
            out.push(0);
            assert(out@ =~= old(out)@ + lock_bytes(*lock));
        },
        Some(vote) => {
            out.push(1);
            put_vote(out, vote);
            assert(out@ =~= old(out)@ + lock_bytes(*lock));
        },
    }
}

/// Reads a lock at `at`. The result holds the position behind it.
pub fn read_lock(bytes: &[u8], at: usize) -> (read: Option<(Option<PublishVote>, usize)>)
    requires
        at <= bytes@.len(),
    ensures
        match parse_lock(bytes@.skip(at as int)) {
            Some((lock, taken)) => read == Some((lock, (at + taken) as usize)) && at + taken
                <= bytes@.len(),
            None => read is None,
        },
{
    if bytes.len() - at < 1 {
        return None;
    }
    let marker = bytes[at];
    if marker == 0 {
        Some((None, at + 1))
    } else if marker == 1 {
        assert(bytes@.skip(at as int).skip(1) =~= bytes@.skip(at + 1));
        match read_vote(bytes, at + 1) {
            Some((vote, end)) => Some((Some(vote), end)),
            None => None,
        }
    } else {
        None
    }
}

/// The bytes of a state: root, sequence number, lock.
pub open spec fn state_bytes(state: State) -> Seq<u8> {
    state.root@ + number_bytes(state.sequence_number) + lock_bytes(state.lock)
}

/// Reads a state from the start of `bytes`.
pub open spec fn parse_state(bytes: Seq<u8>) -> Option<(State, int)> {
    if bytes.len() >= 40 {
        match parse_lock(bytes.skip(40)) {
            Some((lock, taken)) => Some(
                (
                    State {
                        root: digest_from(bytes.subrange(0, 32)),
                        sequence_number: spec_u64_from_le_bytes(bytes.subrange(32, 40)),
                        lock,
                    },
                    40 + taken,
                ),
            ),
            None => None,
        }
    } else {
        None
    }
}

/// A state reads back as itself.
pub proof fn lemma_state_round_trip(state: State, rest: Seq<u8>)
    ensures
        parse_state(state_bytes(state) + rest) == Some((state, state_bytes(state).len() as int)),
{
    let all = state_bytes(state) + rest;
    lemma_digest_from(state.root);
    lemma_number_round_trip(state.sequence_number, Seq::empty());
    assert(number_bytes(state.sequence_number) + Seq::<u8>::empty() =~= number_bytes(
        state.sequence_number,
    ));
    assert(number_bytes(state.sequence_number).subrange(0, 8) =~= number_bytes(
        state.sequence_number,
    ));
    lemma_lock_round_trip(state.lock, rest);
    assert(all.subrange(0, 32) =~= state.root@);
    assert(all.subrange(32, 40) =~= number_bytes(state.sequence_number));
    assert(all.skip(40) =~= lock_bytes(state.lock) + rest);
}

/// Appends a state.
pub fn put_state(out: &mut Vec<u8>, state: &State)
    ensures
        final(out)@ == old(out)@ + state_bytes(*state),
{
    put(out, &state.root.0);
    put_number(out, state.sequence_number);
    put_lock(out, &state.lock);
    assert(out@ =~= old(out)@ + state_bytes(*state));
}

/// Reads a state at `at`. The result holds the position behind it.
pub fn read_state(bytes: &[u8], at: usize) -> (read: Option<(State, usize)>)
    requires
        at <= bytes@.len(),
    ensures
        match parse_state(bytes@.skip(at as int)) {
            Some((state, taken)) => read == Some((state, (at + taken) as usize)) && at + taken
                <= bytes@.len(),
            None => read is None,
        },
{
    if bytes.len() - at < 40 {
        return None;
    }
    let ghost tail = bytes@.skip(at as int);
    let root = Digest(read_32(bytes, at));
    let number = match read_number(bytes, at + 32) {
        Some((number, _)) => number,
        None => {
            return None;
        },
    };
    proof {
        assert(bytes@.subrange(at as int, at + 32) =~= tail.subrange(0, 32));
        assert(bytes@.skip(at + 32).subrange(0, 8) =~= tail.subrange(32, 40));
        assert(bytes@.skip(at + 40) =~= tail.skip(40));
        lemma_digest_from(root);
    }
    match read_lock(bytes, at + 40) {
        Some((lock, end)) => Some((State { root, sequence_number: number, lock }, end)),
        None => None,
    }
}

/// The bytes of a query: the sequence number.
pub open spec fn query_bytes(query: PublishCertificateQuery) -> Seq<u8> {
    number_bytes(query.sequence_number)
}

/// Reads a query from the start of `bytes`.
pub open spec fn parse_query(bytes: Seq<u8>) -> Option<(PublishCertificateQuery, int)> {
    match parse_number(bytes) {
        Some((number, taken)) => Some((PublishCertificateQuery { sequence_number: number }, taken)),
        None => None,
    }
}

/// A query reads back as itself.
pub proof fn lemma_query_round_trip(query: PublishCertificateQuery, rest: Seq<u8>)
    ensures
        parse_query(query_bytes(query) + rest) == Some((query, query_bytes(query).len() as int)),
{
    lemma_number_round_trip(query.sequence_number, rest);
}

/// The bytes of a notification: root, proof as a byte string, sequence
/// number, identifier, signature.
pub open spec fn notification_bytes(notification: PublishNotificationView) -> Seq<u8> {
    notification.root@ + blob_bytes(notification.proof) + number_bytes(
        notification.sequence_number,
    ) + notification.id@ + notification.signature@
}

/// Reads a notification from the start of `bytes`.
pub open spec fn parse_notification(bytes: Seq<u8>) -> Option<(PublishNotificationView, int)> {
    if bytes.len() >= 32 {
        match parse_blob(bytes.skip(32)) {
            Some((proof, taken)) => {
                let tail = bytes.skip(32 + taken);
                if tail.len() >= 104 {
                    Some(
                        (
                            PublishNotificationView {
                                root: digest_from(bytes.subrange(0, 32)),
                                proof,
                                sequence_number: spec_u64_from_le_bytes(tail.subrange(0, 8)),
                                id: digest_from(tail.subrange(8, 40)),
                                signature: signature_from(tail.subrange(40, 104)),
                            },
                            32 + taken + 104,
                        ),
                    )
                } else {
                    None
                }
            },
            None => None,
        }
    } else {
        None
    }
}

/// A notification reads back as itself, where the length of its proof fits
/// in 64 bits.
pub proof fn lemma_notification_round_trip(notification: PublishNotificationView, rest: Seq<u8>)
    requires
        notification.proof.len() <= u64::MAX,
    ensures
        parse_notification(notification_bytes(notification) + rest) == Some(
            (notification, notification_bytes(notification).len() as int),
        ),
{
    let all = notification_bytes(notification) + rest;
    let after_proof = number_bytes(notification.sequence_number) + notification.id@
        + notification.signature@ + rest;
    lemma_digest_from(notification.root);
    lemma_digest_from(notification.id);
    lemma_signature_from(notification.signature);
    lemma_number_round_trip(notification.sequence_number, Seq::empty());
    assert(number_bytes(notification.sequence_number) + Seq::<u8>::empty() =~= number_bytes(
        notification.sequence_number,
    ));
    assert(number_bytes(notification.sequence_number).subrange(0, 8) =~= number_bytes(
        notification.sequence_number,
    ));
    lemma_blob_round_trip(notification.proof, after_proof);
    assert(all.subrange(0, 32) =~= notification.root@);
    assert(all.skip(32) =~= blob_bytes(notification.proof) + after_proof);
    let taken: int = 8 + notification.proof.len() as int;
    let tail = all.skip(32 + taken);
    assert(tail =~= after_proof);
    assert(tail.subrange(0, 8) =~= number_bytes(notification.sequence_number));
    assert(tail.subrange(8, 40) =~= notification.id@);
    assert(tail.subrange(40, 104) =~= notification.signature@);
}

/// Appends a notification.
pub fn put_notification(out: &mut Vec<u8>, notification: &PublishNotification)
    ensures
        final(out)@ == old(out)@ + notification_bytes(notification@),
{
    put(out, &notification.root.0);
    put_blob(out, notification.proof.as_slice());
    put_number(out, notification.sequence_number);
    put(out, &notification.id.0);
    put(out, &notification.signature.0);
    assert(out@ =~= old(out)@ + notification_bytes(notification@));
}

/// Reads a notification at `at`. The result holds the position behind it.
pub fn read_notification(bytes: &[u8], at: usize) -> (read: Option<(PublishNotification, usize)>)
    requires
        at <= bytes@.len(),
    ensures
        match parse_notification(bytes@.skip(at as int)) {
            Some((notification, taken)) => read matches Some((found, end)) && found@
                == notification && end == at + taken && end <= bytes@.len(),
            None => read is None,
        },
{
    if bytes.len() - at < 32 {
        return None;
    }
    let ghost whole = bytes@.skip(at as int);
    let root = Digest(read_32(bytes, at));
    proof {
        assert(bytes@.skip(at + 32) =~= whole.skip(32));
        assert(bytes@.subrange(at as int, at + 32) =~= whole.subrange(0, 32));
        lemma_digest_from(root);
    }
    let (proof, next) = match read_blob(bytes, at + 32) {
        Some(read) => read,
        None => {
            return None;
        },
    };
    let ghost tail = bytes@.skip(next as int);
    proof {
        assert(tail =~= whole.skip(next - at));
    }
    if bytes.len() - next < 104 {
        return None;
    }
    let number = match read_number(bytes, next) {
        Some((number, _)) => number,
        None => {
            return None;
        },
    };
    let id = Digest(read_32(bytes, next + 8));
    let signature = Signature(read_64(bytes, next + 40));
    proof {
        assert(bytes@.subrange(next + 8, next + 40) =~= tail.subrange(8, 40));
        assert(bytes@.subrange(next + 40, next + 104) =~= tail.subrange(40, 104));
        lemma_digest_from(id);
        lemma_signature_from(signature);
    }
    Some((PublishNotification { root, proof, sequence_number: number, id, signature }, next + 104))
}

/// The bytes of a list of endorsements: each key with its signature, one
/// after the other.
pub open spec fn endorsements_bytes(votes: Seq<Endorsement>) -> Seq<u8>
    decreases votes.len(),
{
    if votes.len() == 0 {
        Seq::empty()
    } else {
        endorsements_bytes(votes.drop_last()) + votes.last().0@ + votes.last().1@
    }
}

/// Reads `count` endorsements from the start of `bytes`.
pub open spec fn parse_endorsements(bytes: Seq<u8>, count: nat) -> Option<Seq<Endorsement>> {
    if bytes.len() >= 96 * count {
        Some(
            Seq::new(
                count,
                |i: int|
                    (
                        key_from(bytes.subrange(96 * i, 96 * i + 32)),
                        signature_from(bytes.subrange(96 * i + 32, 96 * i + 96)),
                    ),
            ),
        )
    } else {
        None
    }
}

/// Each endorsement takes 96 bytes, and stands where its index says.
pub proof fn lemma_endorsement_at(votes: Seq<Endorsement>, i: int)
    requires
        0 <= i < votes.len(),
    ensures
        endorsements_bytes(votes).len() == 96 * votes.len(),
        endorsements_bytes(votes).subrange(96 * i, 96 * i + 32) == votes[i].0@,
        endorsements_bytes(votes).subrange(96 * i + 32, 96 * i + 96) == votes[i].1@,
    decreases votes.len(),
{
    let init = votes.drop_last();
    let last = votes.last();
    lemma_key_from(last.0);
    lemma_signature_from(last.1);
    lemma_endorsements_length(init);
    if i < init.len() {
        lemma_endorsement_at(init, i);
        assert(endorsements_bytes(votes).subrange(96 * i, 96 * i + 32) =~= endorsements_bytes(
            init,
        ).subrange(96 * i, 96 * i + 32));
        assert(endorsements_bytes(votes).subrange(96 * i + 32, 96 * i + 96)
            =~= endorsements_bytes(init).subrange(96 * i + 32, 96 * i + 96));
    } else {
        assert(endorsements_bytes(votes).subrange(96 * i, 96 * i + 32) =~= last.0@);
        assert(endorsements_bytes(votes).subrange(96 * i + 32, 96 * i + 96) =~= last.1@);
    }
}

/// A list of endorsements takes 96 bytes for each.
pub proof fn lemma_endorsements_length(votes: Seq<Endorsement>)
    ensures
        endorsements_bytes(votes).len() == 96 * votes.len(),
    decreases votes.len(),
{
    if votes.len() > 0 {
        lemma_endorsements_length(votes.drop_last());
        lemma_key_from(votes.last().0);
        lemma_signature_from(votes.last().1);
    }
}

/// A list of endorsements reads back as itself.
pub proof fn lemma_endorsements_round_trip(votes: Seq<Endorsement>, rest: Seq<u8>)
    ensures
        endorsements_bytes(votes).len() == 96 * votes.len(),
        parse_endorsements(endorsements_bytes(votes) + rest, votes.len()) == Some(votes),
{
    lemma_endorsements_length(votes);
    let all = endorsements_bytes(votes) + rest;
    let read = parse_endorsements(all, votes.len())->0;
    assert forall|i: int| 0 <= i < votes.len() implies read[i] == votes[i] by {
        lemma_endorsement_at(votes, i);
        assert(all.subrange(96 * i, 96 * i + 32) =~= endorsements_bytes(votes).subrange(
            96 * i,
            96 * i + 32,
        ));
        assert(all.subrange(96 * i + 32, 96 * i + 96) =~= endorsements_bytes(votes).subrange(
            96 * i + 32,
            96 * i + 96,
        ));
        lemma_key_from(votes[i].0);
        lemma_signature_from(votes[i].1);
    }
    assert(read =~= votes);
}

/// The bytes of a certificate: root, sequence number, the number of votes,
/// the votes.
pub open spec fn certificate_bytes(certificate: PublishCertificateView) -> Seq<u8> {
    certificate.root@ + number_bytes(certificate.sequence_number) + number_bytes(
        certificate.votes.len() as u64,
    ) + endorsements_bytes(certificate.votes)
}

/// Reads a certificate from the start of `bytes`.
pub open spec fn parse_certificate(bytes: Seq<u8>) -> Option<(PublishCertificateView, int)> {
    if bytes.len() >= 48 {
        let count = spec_u64_from_le_bytes(bytes.subrange(40, 48));
        match parse_endorsements(bytes.skip(48), count as nat) {
            Some(votes) => Some(
                (
                    PublishCertificateView {
                        root: digest_from(bytes.subrange(0, 32)),
                        sequence_number: spec_u64_from_le_bytes(bytes.subrange(32, 40)),
                        votes,
                    },
                    48 + 96 * count,
                ),
            ),
            None => None,
        }
    } else {
        None
    }
}

/// A certificate takes 48 bytes and 96 more for each vote.
pub proof fn lemma_certificate_length(certificate: PublishCertificateView)
    ensures
        certificate_bytes(certificate).len() == 48 + 96 * certificate.votes.len(),
{
    lemma_digest_from(certificate.root);
    lemma_number_round_trip(certificate.sequence_number, Seq::empty());
    lemma_number_round_trip(certificate.votes.len() as u64, Seq::empty());
    lemma_endorsements_length(certificate.votes);
}

/// A certificate reads back as itself, where the number of its votes fits
/// in 64 bits.
pub proof fn lemma_certificate_round_trip(certificate: PublishCertificateView, rest: Seq<u8>)
    requires
        certificate.votes.len() <= u64::MAX,
    ensures
        parse_certificate(certificate_bytes(certificate) + rest) == Some(
            (certificate, certificate_bytes(certificate).len() as int),
        ),
{
    let all = certificate_bytes(certificate) + rest;
    let count = certificate.votes.len() as u64;
    lemma_digest_from(certificate.root);
    lemma_number_round_trip(certificate.sequence_number, Seq::empty());
    lemma_number_round_trip(count, Seq::empty());
    assert(number_bytes(certificate.sequence_number) + Seq::<u8>::empty() =~= number_bytes(
        certificate.sequence_number,
    ));
    assert(number_bytes(certificate.sequence_number).subrange(0, 8) =~= number_bytes(
        certificate.sequence_number,
    ));
    assert(number_bytes(count) + Seq::<u8>::empty() =~= number_bytes(count));
    assert(number_bytes(count).subrange(0, 8) =~= number_bytes(count));
    lemma_endorsements_round_trip(certificate.votes, rest);
    assert(all.subrange(0, 32) =~= certificate.root@);
    assert(all.subrange(32, 40) =~= number_bytes(certificate.sequence_number));
    assert(all.subrange(40, 48) =~= number_bytes(count));
    assert(all.skip(48) =~= endorsements_bytes(certificate.votes) + rest);
}

/// Appends a certificate.
pub fn put_certificate(out: &mut Vec<u8>, certificate: &PublishCertificate)
    ensures
        final(out)@ == old(out)@ + certificate_bytes(certificate@),
{
    put(out, &certificate.root.0);
    put_number(out, certificate.sequence_number);
    put_number(out, certificate.votes.len() as u64);
    let ghost head = out@;
    let mut i: usize = 0;
    while i < certificate.votes.len()
        invariant
            0 <= i <= certificate.votes@.len(),
            out@ == head + endorsements_bytes(certificate.votes@.take(i as int)),
        decreases certificate.votes@.len() - i,
    {
        put(out, &certificate.votes[i].0.0);
        put(out, &certificate.votes[i].1.0);
        proof {
            let longer = certificate.votes@.take(i + 1);
            assert(longer.drop_last() =~= certificate.votes@.take(i as int));
            assert(out@ =~= head + endorsements_bytes(longer));
        }
        i = i + 1;
    }
    proof {
        assert(certificate.votes@.take(i as int) =~= certificate.votes@);
        assert(out@ =~= old(out)@ + certificate_bytes(certificate@));
    }
}

/// Reads a certificate at `at`. The result holds the position behind it.
pub fn read_certificate(bytes: &[u8], at: usize) -> (read: Option<(PublishCertificate, usize)>)
    requires
        at <= bytes@.len(),
    ensures
        match parse_certificate(bytes@.skip(at as int)) {
            Some((certificate, taken)) => read matches Some((found, end)) && found@ == certificate
                && end == at + taken && end <= bytes@.len(),
            None => read is None,
        },
{
    if bytes.len() - at < 48 {
        return None;
    }
    let ghost whole = bytes@.skip(at as int);
    let root = Digest(read_32(bytes, at));
    let number = match read_number(bytes, at + 32) {
        Some((number, _)) => number,
        None => {
            return None;
        },
    };
    let count = match read_number(bytes, at + 40) {
        Some((count, _)) => count,
        None => {
            return None;
        },
    };
    proof {
        assert(bytes@.subrange(at as int, at + 32) =~= whole.subrange(0, 32));
        assert(bytes@.skip(at + 32).subrange(0, 8) =~= whole.subrange(32, 40));
        assert(bytes@.skip(at + 40).subrange(0, 8) =~= whole.subrange(40, 48));
        lemma_digest_from(root);
    }
    let start = at + 48;
    let ghost tail = bytes@.skip(start as int);
    proof {
        assert(tail =~= whole.skip(48));
    }
    let room = bytes.len() - start;
    if count > (room / 96) as u64 {
        return None;
    }
    let length = bytes.len();
    let total = count as usize;
    let mut votes: Vec<Endorsement> = Vec::new();
    let mut i: usize = 0;
    while i < total
        invariant
            0 <= i <= total,
            start + 96 * total <= length == bytes@.len(),
            tail == bytes@.skip(start as int),
            votes@.len() == i,
            forall|j: int|
                0 <= j < i ==> votes@[j] == (
                    key_from(tail.subrange(96 * j, 96 * j + 32)),
                    signature_from(tail.subrange(96 * j + 32, 96 * j + 96)),
                ),
        decreases total - i,
    {
        let key = PublicKey(read_32(bytes, start + 96 * i));
        let signature = Signature(read_64(bytes, start + 96 * i + 32));
        proof {
            assert(bytes@.subrange(start + 96 * i, start + 96 * i + 32) =~= tail.subrange(
                96 * i,
                96 * i + 32,
            ));
            assert(bytes@.subrange(start + 96 * i + 32, start + 96 * i + 96) =~= tail.subrange(
                96 * i + 32,
                96 * i + 96,
            ));
            lemma_key_from(key);
            lemma_signature_from(signature);
        }
        votes.push((key, signature));
        i = i + 1;
    }
    proof {
        assert(votes@ =~= parse_endorsements(tail, count as nat)->0);
    }
    Some((PublishCertificate { root, sequence_number: number, votes }, start + 96 * total))
}

} // verus!
