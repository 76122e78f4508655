use key_transparency::committee::{Committee, Idp, Witness};
use key_transparency::crypto::{Digest, KeyPair, PublicKey};
use key_transparency::dispatch::{dispatch, on_certificate, on_notification, sync_reply, Reaction};
use key_transparency::error::{MessageError, WitnessError};
use key_transparency::message::{IdPToWitnessMessage, WitnessToIdPMessage};
use key_transparency::publish::{PublishCertificate, PublishNotification, PublishVote};
use key_transparency::storage::{
    load_lock, load_sequence_number, STORE_LOCK_ADDR, STORE_SEQ_ADDR,
};
use key_transparency::sync::{PublishCertificateQuery, State};
use key_transparency::witness::{finalize_rule, vote_rule, PublishHandler};
use rand::rngs::StdRng;
use rand::{RngCore, SeedableRng};

fn witness_keys() -> Vec<(PublicKey, KeyPair)> {
    let mut rng = StdRng::from_seed([0; 32]);
    (0..4)
        .map(|_| {
            let mut seed = [0u8; 32];
            rng.fill_bytes(&mut seed);
            let keypair = KeyPair::from_seed(seed);
            (keypair.public(), keypair)
        })
        .collect()
}

fn witness_committee(base_port: u16) -> Committee {
    let (identity_provider, _) = witness_keys().pop().unwrap();
    let witnesses = witness_keys()
        .into_iter()
        .enumerate()
        .map(|(i, (name, _))| {
            (name, Witness { voting_power: 1, address: format!("127.0.0.1:{}", base_port + i as u16) })
        })
        .collect();
    let idp = Idp { name: identity_provider, address: format!("127.0.0.1:{}", base_port) };
    Committee::new(idp, witnesses).unwrap()
}

fn witness_notification() -> PublishNotification {
    let (_, identity_provider) = witness_keys().pop().unwrap();
    PublishNotification::new(Digest::default(), Vec::default(), 0, &identity_provider)
}

fn witness_votes() -> Vec<PublishVote> {
    let notification = witness_notification();
    witness_keys().iter().map(|(_, keypair)| PublishVote::new(&notification, keypair)).collect()
}

fn certificate_for(notification: &PublishNotification) -> PublishCertificate {
    PublishCertificate {
        root: notification.root,
        sequence_number: notification.sequence_number,
        votes: witness_keys()
            .iter()
            .map(|(_, keypair)| PublishVote::new(notification, keypair))
            .map(|x| (x.author, x.signature))
            .collect(),
    }
}

fn spawn_witnesses(committee: &Committee) -> Vec<PublishHandler> {
    witness_keys()
        .into_iter()
        .map(|(_, keypair)| PublishHandler::new(keypair, committee.clone()))
        .collect()
}

fn broadcast(witnesses: &mut Vec<PublishHandler>, message: &IdPToWitnessMessage) -> Vec<Vec<u8>> {
    let bytes = message.serialize();
    witnesses
        .iter_mut()
        .map(|witness| match dispatch(witness, &bytes) {
            Some(Reaction::Answer { reply, .. }) => reply.serialize(),
            _ => panic!("Unexpected protocol message"),
        })
        .collect()
}

#[test]
fn correct_notification() {
    let committee = witness_committee(7_000);
    let mut witnesses = spawn_witnesses(&committee);

    let message = IdPToWitnessMessage::PublishNotification(witness_notification());
    let mut replies: Vec<_> = broadcast(&mut witnesses, &message)
        .iter()
        .map(|reply| match WitnessToIdPMessage::deserialize(reply).unwrap() {
            WitnessToIdPMessage::PublishVote(Ok(vote)) => vote,
            _ => panic!("Unexpected protocol message"),
        })
        .collect();
    replies.sort_by_key(|x| x.author.0);

    let mut expected_votes = witness_votes();
    expected_votes.sort_by_key(|x| x.author.0);
    assert_eq!(replies, expected_votes);
    for (reply, expected) in replies.iter().zip(expected_votes.iter()) {
        assert_eq!(reply.signature, expected.signature);
    }
}

#[test]
fn unexpected_sequence_number() {
    let committee = witness_committee(7_100);
    let mut witnesses = spawn_witnesses(&committee);

    let bad_sequence_number = 0 + 1;
    let (_, identity_provider) = witness_keys().pop().unwrap();
    let notification = PublishNotification::new(
        Digest::default(),
        Vec::default(),
        bad_sequence_number,
        &identity_provider,
    );

    let message = IdPToWitnessMessage::PublishNotification(notification);
    for reply in broadcast(&mut witnesses, &message) {
        match WitnessToIdPMessage::deserialize(&reply).unwrap() {
            WitnessToIdPMessage::PublishVote(Err(WitnessError::UnexpectedSequenceNumber {
                expected,
                got,
            })) => {
                assert_eq!(expected, 0);
                assert_eq!(got, bad_sequence_number);
            }
            _ => panic!("Unexpected protocol message"),
        }
    }
    for witness in witnesses.iter() {
        assert_eq!(witness.state(), State::default());
    }
}

#[test]
fn conflicting_notification() {
    let committee = witness_committee(7_200);
    let mut witnesses = spawn_witnesses(&committee);

    let notification = witness_notification();
    let notification_root = notification.root;
    let _ = broadcast(&mut witnesses, &IdPToWitnessMessage::PublishNotification(notification));
    let locked: Vec<State> = witnesses.iter().map(|witness| witness.state()).collect();

    let (_, identity_provider) = witness_keys().pop().unwrap();
    let conflict = PublishNotification::new(Digest([1; 32]), Vec::default(), 0, &identity_provider);
    let conflict_root = conflict.root;

    for reply in broadcast(&mut witnesses, &IdPToWitnessMessage::PublishNotification(conflict)) {
        match WitnessToIdPMessage::deserialize(&reply).unwrap() {
            WitnessToIdPMessage::PublishVote(Err(WitnessError::ConflictingNotification {
                lock_root,
                received_root,
            })) => {
                assert_eq!(lock_root, notification_root);
                assert_eq!(received_root, conflict_root);
            }
            _ => panic!("Unexpected protocol message"),
        }
    }
    for (witness, before) in witnesses.iter().zip(locked.iter()) {
        assert_eq!(witness.state(), *before);
        assert!(witness.state().lock.is_some());
    }
}

#[test]
fn expected_certificate() {
    let committee = witness_committee(7_300);
    let mut witnesses = spawn_witnesses(&committee);

    let certificate = certificate_for(&witness_notification());
    let expected = State { root: Digest::default(), sequence_number: 0 + 1, lock: None };

    for reply in broadcast(&mut witnesses, &IdPToWitnessMessage::PublishCertificate(certificate)) {
        match WitnessToIdPMessage::deserialize(&reply).unwrap() {
            WitnessToIdPMessage::State(Ok(state)) => assert_eq!(state, expected),
            _ => panic!("Unexpected protocol message"),
        }
    }
}

#[test]
fn unexpected_certificate() {
    let committee = witness_committee(7_400);
    let mut witnesses = spawn_witnesses(&committee);

    let future_sequence_number = 0 + 1;
    let (_, identity_provider) = witness_keys().pop().unwrap();
    let notification = PublishNotification::new(
        Digest::default(),
        Vec::default(),
        future_sequence_number,
        &identity_provider,
    );
    let certificate = certificate_for(&notification);

    for reply in broadcast(&mut witnesses, &IdPToWitnessMessage::PublishCertificate(certificate)) {
        match WitnessToIdPMessage::deserialize(&reply).unwrap() {
            WitnessToIdPMessage::State(Err(WitnessError::MissingEarlierCertificates(seq))) => {
                assert_eq!(seq, 0);
            }
            _ => panic!("Unexpected protocol message"),
        }
    }
    for witness in witnesses.iter() {
        assert_eq!(witness.state().sequence_number, 0);
    }
}

#[test]
fn witness_votes_then_finalizes() {
    let committee = witness_committee(7_500);
    let (_, keypair) = witness_keys().remove(0);
    let mut witness = PublishHandler::new(keypair.clone(), committee.clone());
    assert_eq!(witness.state(), State::default());
    assert_eq!(witness.name(), keypair.public());

    let (_, identity_provider) = witness_keys().pop().unwrap();
    let notification = PublishNotification::new(Digest([5; 32]), vec![1], 0, &identity_provider);
    let vote = witness.handle_notification(&notification).unwrap();
    assert_eq!(vote, PublishVote::new(&notification, &keypair));
    assert_eq!(witness.state().lock, Some(vote));
    assert_eq!(witness.state().sequence_number, 0);

    let certificate = certificate_for(&notification);
    assert_eq!(witness.process_certificate(&certificate), Ok(()));
    let state = witness.handle_certificate(&certificate).unwrap();
    assert_eq!(state, State { root: Digest([5; 32]), sequence_number: 1, lock: None });
    assert_eq!(witness.state(), state);
    assert_eq!(witness.state().root.0, [5; 32]);
}

#[test]
fn witness_revotes_with_the_same_bytes() {
    let committee = witness_committee(7_600);
    let (_, keypair) = witness_keys().remove(1);
    let mut witness = PublishHandler::new(keypair, committee);
    let message = IdPToWitnessMessage::PublishNotification(witness_notification()).serialize();
    let first = match dispatch(&mut witness, &message) {
        Some(Reaction::Answer { reply, secure, audit }) => {
            assert_eq!(secure.len(), 1);
            assert!(audit.is_empty());
            reply.serialize()
        }
        _ => panic!("Unexpected protocol message"),
    };
    let locked = witness.state();
    let second = match dispatch(&mut witness, &message) {
        Some(Reaction::Answer { reply, .. }) => reply.serialize(),
        _ => panic!("Unexpected protocol message"),
    };
    assert_eq!(first, second);
    assert_eq!(witness.state(), locked);
    assert!(matches!(
        WitnessToIdPMessage::deserialize(&first),
        Some(WitnessToIdPMessage::PublishVote(Ok(_)))
    ));
}

#[test]
fn witness_recovers_from_a_crash() {
    let committee = witness_committee(7_700);
    let (_, keypair) = witness_keys().remove(2);
    let mut witness = PublishHandler::new(keypair.clone(), committee.clone());
    let notification = witness_notification();
    let (reply, secure) = on_notification(&mut witness, &notification);
    let first = reply.serialize();
    assert_eq!(secure.len(), 1);
    assert_eq!(secure[0].key, STORE_LOCK_ADDR.to_vec());

    let stored_lock = Some(&secure[0].value[..]);
    let sequence_number = load_sequence_number(None).unwrap();
    let lock = load_lock(stored_lock).unwrap();
    assert_eq!(sequence_number, 0);
    let mut restarted =
        PublishHandler::restore(keypair.clone(), committee.clone(), sequence_number, lock).unwrap();
    assert_eq!(restarted.state(), witness.state());

    let (again, _) = on_notification(&mut restarted, &notification);
    assert_eq!(again.serialize(), first);

    let (_, identity_provider) = witness_keys().pop().unwrap();
    let conflict = PublishNotification::new(Digest([1; 32]), Vec::default(), 0, &identity_provider);
    let (refusal, writes) = on_notification(&mut restarted, &conflict);
    assert!(writes.is_empty());
    match refusal {
        WitnessToIdPMessage::PublishVote(Err(WitnessError::ConflictingNotification {
            lock_root,
            received_root,
        })) => {
            assert_eq!(lock_root, Digest::default());
            assert_eq!(received_root, Digest([1; 32]));
        }
        _ => panic!("Unexpected protocol message"),
    }
}

#[test]
fn witness_stores_its_advance() {
    let committee = witness_committee(7_800);
    let (_, keypair) = witness_keys().remove(3);
    let mut witness = PublishHandler::new(keypair.clone(), committee.clone());
    let notification = witness_notification();
    let _ = on_notification(&mut witness, &notification);
    let certificate = certificate_for(&notification);
    let (reply, secure, audit) = on_certificate(&mut witness, &certificate);
    assert!(matches!(reply, WitnessToIdPMessage::State(Ok(_))));
    assert_eq!(secure.len(), 2);
    assert_eq!(secure[0].key, STORE_SEQ_ADDR.to_vec());
    assert_eq!(secure[0].value, 1u64.to_le_bytes().to_vec());
    assert_eq!(secure[1].key, STORE_LOCK_ADDR.to_vec());
    assert_eq!(secure[1].value, vec![0u8]);
    assert_eq!(audit.len(), 1);
    assert_eq!(audit[0].key, 0u64.to_le_bytes().to_vec());
    let archived = IdPToWitnessMessage::PublishCertificate(certificate).serialize();
    assert_eq!(audit[0].value, archived[4..].to_vec());

    let sequence_number = load_sequence_number(Some(&secure[0].value[..])).unwrap();
    let lock = load_lock(Some(&secure[1].value[..])).unwrap();
    let restarted = PublishHandler::restore(keypair, committee, sequence_number, lock).unwrap();
    assert_eq!(restarted.state().sequence_number, 1);
    assert_eq!(restarted.state().lock, None);
}

#[test]
fn finalize_past_leaves_the_witness_as_it_is() {
    let committee = witness_committee(7_900);
    let (_, keypair) = witness_keys().remove(0);
    let mut witness = PublishHandler::restore(keypair, committee, 3, None).unwrap();
    let (_, identity_provider) = witness_keys().pop().unwrap();
    let notification = PublishNotification::new(Digest([8; 32]), Vec::default(), 1, &identity_provider);
    let certificate = certificate_for(&notification);
    let (reply, secure, audit) = on_certificate(&mut witness, &certificate);
    match reply {
        WitnessToIdPMessage::State(Ok(state)) => {
            assert_eq!(state.sequence_number, 3);
            assert_eq!(state, State { root: Digest::default(), sequence_number: 3, lock: None });
        }
        _ => panic!("Unexpected protocol message"),
    }
    assert!(secure.is_empty());
    assert!(audit.is_empty());
    assert_eq!(witness.state().sequence_number, 3);
}

#[test]
fn missing_earlier_certificate_is_asked_for() {
    let committee = witness_committee(8_000);
    let mut witnesses = spawn_witnesses(&committee);
    let (_, identity_provider) = witness_keys().pop().unwrap();
    let notification = PublishNotification::new(Digest([8; 32]), Vec::default(), 1, &identity_provider);
    let certificate = certificate_for(&notification);
    let bytes = IdPToWitnessMessage::PublishCertificate(certificate).serialize();
    match dispatch(&mut witnesses[0], &bytes) {
        Some(Reaction::Answer { reply, secure, audit }) => {
            assert!(matches!(
                reply,
                WitnessToIdPMessage::State(Err(WitnessError::MissingEarlierCertificates(0)))
            ));
            assert!(secure.is_empty());
            assert!(audit.is_empty());
        }
        _ => panic!("Unexpected protocol message"),
    }
    let query = IdPToWitnessMessage::PublishCertificateQuery(PublishCertificateQuery {
        sequence_number: 0,
    });
    match dispatch(&mut witnesses[1], &query.serialize()) {
        Some(Reaction::Lookup { key }) => assert_eq!(key, 0u64.to_le_bytes().to_vec()),
        _ => panic!("Unexpected protocol message"),
    }
    match sync_reply(Some(vec![1, 2, 3])) {
        WitnessToIdPMessage::PublishCertificateResponse(bytes) => assert_eq!(bytes, vec![1, 2, 3]),
        _ => panic!("Unexpected protocol message"),
    }
}

#[test]
fn missing_certificate_is_answered_with_not_found() {
    let not_found = sync_reply(None);
    match &not_found {
        WitnessToIdPMessage::PublishCertificateResponse(bytes) => assert!(bytes.is_empty()),
        _ => panic!("Unexpected protocol message"),
    }
    assert_eq!(not_found.serialize(), vec![2, 0, 0, 0, 0, 0, 0, 0, 0, 0, 0, 0]);
    match WitnessToIdPMessage::deserialize(&not_found.serialize()) {
        Some(WitnessToIdPMessage::PublishCertificateResponse(bytes)) => assert!(bytes.is_empty()),
        _ => panic!("Unexpected protocol message"),
    }

    // An archived certificate is never taken for "not found".
    let committee = witness_committee(8_500);
    let (_, keypair) = witness_keys().remove(0);
    let mut witness = PublishHandler::new(keypair, committee);
    let certificate = certificate_for(&witness_notification());
    let (_, _, audit) = on_certificate(&mut witness, &certificate);
    assert_eq!(audit.len(), 1);
    let stored = audit[0].value.clone();
    assert!(stored.len() >= 48);
    let found = sync_reply(Some(stored.clone()));
    assert_ne!(found.serialize(), not_found.serialize());
    match found {
        WitnessToIdPMessage::PublishCertificateResponse(bytes) => assert_eq!(bytes, stored),
        _ => panic!("Unexpected protocol message"),
    }
}

#[test]
fn witness_at_the_last_number_still_answers() {
    let committee = witness_committee(8_600);
    let (_, keypair) = witness_keys().remove(0);
    let (_, identity_provider) = witness_keys().pop().unwrap();
    let mut witness = PublishHandler::restore(keypair, committee, u64::MAX, None).unwrap();
    match dispatch(&mut witness, &IdPToWitnessMessage::StateQuery.serialize()) {
        Some(Reaction::Answer { reply: WitnessToIdPMessage::State(Ok(state)), .. }) => {
            assert_eq!(state.sequence_number, u64::MAX);
        }
        _ => panic!("Unexpected protocol message"),
    }
    let notification = PublishNotification::new(Digest([8; 32]), Vec::default(), u64::MAX, &identity_provider);
    assert!(witness.handle_notification(&notification).is_ok());
    let earlier = PublishNotification::new(Digest([8; 32]), Vec::default(), 5, &identity_provider);
    let state = witness.handle_certificate(&certificate_for(&earlier)).unwrap();
    assert_eq!(state.sequence_number, u64::MAX);
    assert!(state.lock.is_some());
    let mut unsound = certificate_for(&notification);
    unsound.votes.truncate(1);
    assert!(witness.apply_certificate(&unsound.root, u64::MAX, unsound.verify(&witness_committee(8_600))).is_err());
    assert_eq!(witness.state().sequence_number, u64::MAX);
}

#[test]
fn state_query_is_answered_with_the_state() {
    let committee = witness_committee(8_100);
    let (_, keypair) = witness_keys().remove(0);
    let mut witness = PublishHandler::restore(keypair, committee, 7, None).unwrap();
    match dispatch(&mut witness, &IdPToWitnessMessage::StateQuery.serialize()) {
        Some(Reaction::Answer { reply: WitnessToIdPMessage::State(Ok(state)), secure, audit }) => {
            assert_eq!(state.sequence_number, 7);
            assert!(secure.is_empty() && audit.is_empty());
        }
        _ => panic!("Unexpected protocol message"),
    }
    assert!(dispatch(&mut witness, &[9, 9, 9]).is_none());
    assert!(dispatch(&mut witness, &[]).is_none());
    assert_eq!(witness.state().sequence_number, 7);
}

#[test]
fn invalid_messages_leave_the_witness_as_it_is() {
    let committee = witness_committee(8_200);
    let (_, keypair) = witness_keys().remove(0);
    let mut witness = PublishHandler::new(keypair.clone(), committee);

    let forged = PublishNotification::new(Digest([5; 32]), Vec::default(), 0, &keypair);
    assert!(matches!(
        witness.handle_notification(&forged),
        Err(WitnessError::MessageError(MessageError::InvalidSignature(_)))
    ));
    assert_eq!(witness.state(), State::default());

    let mut malformed = witness_notification();
    malformed.root = Digest([5; 32]);
    let id = malformed.id;
    assert_eq!(
        witness.make_vote(&malformed),
        Err(WitnessError::MessageError(MessageError::MalformedNotificationId(id)))
    );

    let mut certificate = certificate_for(&witness_notification());
    certificate.votes.truncate(2);
    assert_eq!(
        witness.handle_certificate(&certificate),
        Err(WitnessError::MessageError(MessageError::CertificateRequiresQuorum))
    );
    assert_eq!(
        witness.process_certificate(&certificate),
        Err(WitnessError::MessageError(MessageError::CertificateRequiresQuorum))
    );
    assert_eq!(witness.state(), State::default());
}

#[test]
fn stale_lock_is_not_restored() {
    let committee = witness_committee(8_300);
    let (_, keypair) = witness_keys().remove(0);
    let vote = PublishVote::new(&witness_notification(), &keypair);
    assert!(PublishHandler::restore(keypair.clone(), committee.clone(), 1, Some(vote)).is_none());
    assert!(PublishHandler::restore(keypair, committee, 0, Some(vote)).is_some());
}

#[test]
fn vote_rule_on_plain_values() {
    let state = State { root: Digest::default(), sequence_number: 4, lock: None };
    let root = Digest([1; 32]);
    assert_eq!(vote_rule(&state, &root, 4, Ok(())), Ok(None));
    assert_eq!(
        vote_rule(&state, &root, 5, Ok(())),
        Err(WitnessError::UnexpectedSequenceNumber { expected: 4, got: 5 })
    );
    assert_eq!(
        vote_rule(&state, &root, 3, Ok(())),
        Err(WitnessError::UnexpectedSequenceNumber { expected: 4, got: 3 })
    );
    assert_eq!(
        vote_rule(&state, &root, 4, Err(MessageError::CertificateRequiresQuorum)),
        Err(WitnessError::MessageError(MessageError::CertificateRequiresQuorum))
    );
    let (_, keypair) = witness_keys().remove(0);
    let (_, identity_provider) = witness_keys().pop().unwrap();
    let notification = PublishNotification::new(root, Vec::default(), 4, &identity_provider);
    let vote = PublishVote::new(&notification, &keypair);
    let locked = State { root: Digest::default(), sequence_number: 4, lock: Some(vote) };
    assert_eq!(vote_rule(&locked, &root, 4, Ok(())), Ok(Some(vote)));
    assert_eq!(
        vote_rule(&locked, &Digest([2; 32]), 4, Ok(())),
        Err(WitnessError::ConflictingNotification {
            lock_root: root,
            received_root: Digest([2; 32])
        })
    );
}

#[test]
fn finalize_rule_on_plain_values() {
    assert_eq!(finalize_rule(3, 3, Ok(())), Ok(true));
    assert_eq!(finalize_rule(3, 1, Ok(())), Ok(false));
    assert_eq!(finalize_rule(0, 1, Ok(())), Err(WitnessError::MissingEarlierCertificates(0)));
    assert_eq!(
        finalize_rule(3, 3, Err(MessageError::CertificateRequiresQuorum)),
        Err(WitnessError::MessageError(MessageError::CertificateRequiresQuorum))
    );
    assert_eq!(
        finalize_rule(0, 1, Err(MessageError::CertificateRequiresQuorum)),
        Err(WitnessError::MessageError(MessageError::CertificateRequiresQuorum))
    );
}

#[test]
fn sequence_number_rises_by_one_for_each_certificate() {
    let committee = witness_committee(8_400);
    let (_, keypair) = witness_keys().remove(0);
    let (_, identity_provider) = witness_keys().pop().unwrap();
    let mut witness = PublishHandler::new(keypair, committee);
    for number in 0..5u64 {
        let root = Digest([number as u8 + 1; 32]);
        let notification = PublishNotification::new(root, Vec::default(), number, &identity_provider);
        assert!(witness.handle_notification(&notification).is_ok());
        let skipped = PublishNotification::new(root, Vec::default(), number + 2, &identity_provider);
        assert!(witness.handle_certificate(&certificate_for(&skipped)).is_err());
        assert_eq!(witness.state().sequence_number, number);
        let state = witness.handle_certificate(&certificate_for(&notification)).unwrap();
        assert_eq!(state.sequence_number, number + 1);
        assert_eq!(state.lock, None);
        assert_eq!(state.root, root);
        let again = witness.handle_certificate(&certificate_for(&notification)).unwrap();
        assert_eq!(again, state);
    }
}
