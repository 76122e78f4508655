use akd::ecvrf::HardCodedAkdVRF;
use akd::local_auditing::AuditBlob;
use akd::storage::memory::AsyncInMemoryDatabase;
use akd::storage::StorageManager;
use akd::{AkdLabel, AkdValue, Directory};
use key_transparency::aggregator::Aggregator;
use key_transparency::batcher::{split_request, Batcher};
use key_transparency::committee::{Committee, Idp, Witness};
use key_transparency::crypto::{Digest, KeyPair, PublicKey};
use key_transparency::dispatch::{dispatch, Reaction};
use key_transparency::error::{IdpError, MessageError, WitnessError};
use key_transparency::message::{IdPToWitnessMessage, WitnessToIdPMessage};
use key_transparency::prover::Prover;
use key_transparency::publish::{PublishCertificate, PublishNotification, PublishVote};
use key_transparency::publisher::{Publisher, Step};
use key_transparency::storage::{
    certificate_key, certificate_record, load_lock, load_notification, load_sequence_number,
    lock_record, notification_record, sequence_record, STORE_LAST_NOTIFICATION_ADDR, STORE_LOCK_ADDR,
    STORE_SEQ_ADDR,
};
use key_transparency::sync::State;
use key_transparency::synchronizer::Synchronizer;
use key_transparency::witness::PublishHandler;
use rand::rngs::StdRng;
use rand::{RngCore, SeedableRng};

fn idp_keys() -> Vec<(PublicKey, KeyPair)> {
    let mut rng = StdRng::from_seed([0; 32]);
    (0..4)
        .map(|_| {
            let mut seed = [0u8; 32];
            rng.fill_bytes(&mut seed);
            let keypair = KeyPair::from_seed(seed);
            (keypair.public(), keypair)
        })
        .collect()
}

fn idp_committee(base_port: u16) -> Committee {
    let (identity_provider, _) = idp_keys().pop().unwrap();
    let witnesses = idp_keys()
        .into_iter()
        .enumerate()
        .map(|(i, (name, _))| {
            (name, Witness { voting_power: 1, address: format!("127.0.0.1:{}", base_port + 1 + i as u16) })
        })
        .collect();
    let idp = Idp { name: identity_provider, address: format!("127.0.0.1:{}", base_port) };
    Committee::new(idp, witnesses).unwrap()
}

fn serialized_updates() -> Vec<Vec<u8>> {
    vec![b"AAAA,BBBB".to_vec(), b"CCCC,DDDD".to_vec()]
}

// Publishes a batch to a fresh directory; gives the new root and the audit proof.
fn publish_to_directory(batch: Vec<(String, String)>, current: u64, next: u64) -> (Digest, Vec<u8>) {
    let runtime = tokio::runtime::Runtime::new().unwrap();
    runtime.block_on(async {
        let storage = StorageManager::new_no_cache(AsyncInMemoryDatabase::new());
        let akd = Directory::new(storage, HardCodedAkdVRF {}, false).await.unwrap();
        let azks = akd.retrieve_current_azks().await.unwrap();
        let previous_root = akd.get_root_hash(&azks).await.unwrap();
        let updates = batch
            .into_iter()
            .map(|(label, value)| (AkdLabel(label.into_bytes()), AkdValue(value.into_bytes())))
            .collect();
        akd.publish(updates).await.unwrap();
        let azks = akd.retrieve_current_azks().await.unwrap();
        let root = akd.get_root_hash(&azks).await.unwrap();
        let audit = akd.audit(current, next).await.unwrap();
        let blob = AuditBlob::new(previous_root, root, next, &audit.proofs[0]).unwrap();
        (Digest(root), blob.data)
    })
}

fn idp_notification(root: u8, number: u64) -> PublishNotification {
    let (_, identity_provider) = idp_keys().pop().unwrap();
    PublishNotification::new(Digest([root; 32]), vec![1, 2, 3], number, &identity_provider)
}

fn idp_votes(notification: &PublishNotification) -> Vec<PublishVote> {
    idp_keys().iter().map(|(_, keypair)| PublishVote::new(notification, keypair)).collect()
}

#[test]
fn correct_update() {
    let base_port = 9_000;
    let committee = idp_committee(base_port);
    let (_, keypair) = idp_keys().pop().unwrap();

    // The identity provider: a batcher, a prover and a publisher.
    let batch_size = serialized_updates().len();
    let mut batcher = Batcher::new(batch_size, 200);
    let (mut prover, again) = Prover::initialize(keypair, None).unwrap();
    assert!(again.is_none());
    let mut publisher = Publisher::new(committee.clone());

    // The witnesses, which have certified the state before any update.
    let mut witnesses: Vec<PublishHandler> = idp_keys()
        .into_iter()
        .map(|(_, key)| PublishHandler::restore(key, committee.clone(), 1, None).unwrap())
        .collect();

    // Enough correct updates to make a batch.
    let mut sealed = None;
    for update in serialized_updates() {
        assert!(sealed.is_none());
        sealed = batcher.on_request(&update);
    }
    let batch = sealed.unwrap();
    assert_eq!(
        batch,
        vec![
            ("AAAA".to_string(), ",BBBB".to_string()),
            ("CCCC".to_string(), ",DDDD".to_string())
        ]
    );

    // The prover numbers and signs the state that the batch leads to.
    let (current, next) = prover.epochs();
    assert_eq!((current, next), (0, 1));
    let (root, proof) = publish_to_directory(batch, current, next);
    let notification = prover.make_notification(root, proof.clone());
    assert_eq!(notification.sequence_number, 1);
    assert_eq!(notification.proof, proof);
    assert!(notification.verify(&committee, &Digest::default()).is_ok());

    // The publisher stores and broadcasts it, and gathers the votes.
    let (record, message) = publisher.start(&notification);
    assert_eq!(record.key, STORE_LAST_NOTIFICATION_ADDR.to_vec());
    let mut certificate = None;
    let mut votes = 0;
    for witness in witnesses.iter_mut() {
        let reply = match dispatch(witness, &message) {
            Some(Reaction::Answer { reply, .. }) => reply.serialize(),
            _ => panic!("Unexpected protocol message"),
        };
        votes += 1;
        match publisher.on_reply(&reply) {
            Step::Wait => assert!(votes < 3),
            Step::Certificate(bytes) => {
                assert_eq!(votes, 3);
                certificate = Some(bytes);
            }
            Step::Finished => assert!(votes == 4 && certificate.is_some()),
            _ => panic!("Unexpected step"),
        }
    }

    // The certificate holds the first three votes, and every witness takes it.
    let certificate = certificate.unwrap();
    match IdPToWitnessMessage::deserialize(&certificate) {
        Some(IdPToWitnessMessage::PublishCertificate(read)) => {
            assert_eq!(read.root, root);
            assert_eq!(read.sequence_number, 1);
            assert_eq!(read.votes.len(), 3);
            let expected: Vec<PublicKey> = idp_keys().iter().take(3).map(|(name, _)| *name).collect();
            let authors: Vec<PublicKey> = read.votes.iter().map(|(name, _)| *name).collect();
            assert_eq!(authors, expected);
            assert!(read.verify(&committee).is_ok());
        }
        _ => panic!("Unexpected protocol message"),
    }
    for witness in witnesses.iter_mut() {
        match dispatch(witness, &certificate) {
            Some(Reaction::Answer { reply: WitnessToIdPMessage::State(Ok(state)), secure, audit }) => {
                assert_eq!(state, State { root, sequence_number: 2, lock: None });
                assert_eq!(secure.len(), 2);
                assert_eq!(audit.len(), 1);
                assert_eq!(audit[0].key, certificate_key(1));
            }
            _ => panic!("Unexpected protocol message"),
        }
    }
}

#[test]
fn lagging_witness_is_to_be_synchronized() {
    let committee = idp_committee(9_100);
    let mut publisher = Publisher::new(committee.clone());
    let (_, key) = idp_keys().remove(0);
    let mut witness = PublishHandler::new(key, committee);
    let (_, message) = publisher.start(&idp_notification(9, 1));
    let reply = match dispatch(&mut witness, &message) {
        Some(Reaction::Answer { reply, .. }) => reply.serialize(),
        _ => panic!("Unexpected protocol message"),
    };
    assert_eq!(Publisher::handle_notification_reply(&reply), Ok(None));
    assert!(matches!(publisher.on_reply(&reply), Step::Synchronize));
}

#[test]
fn replies_are_told_apart() {
    let notification = idp_notification(9, 1);
    let vote = idp_votes(&notification).remove(0);
    let ok = WitnessToIdPMessage::PublishVote(Ok(vote)).serialize();
    assert_eq!(Publisher::handle_notification_reply(&ok), Ok(Some(vote)));
    let behind = WitnessToIdPMessage::PublishVote(Err(WitnessError::UnexpectedSequenceNumber {
        expected: 3,
        got: 5,
    }));
    assert_eq!(Publisher::handle_notification_reply(&behind.serialize()), Ok(None));
    let ahead = WitnessError::UnexpectedSequenceNumber { expected: 5, got: 3 };
    assert_eq!(
        Publisher::handle_notification_reply(&WitnessToIdPMessage::PublishVote(Err(ahead.clone())).serialize()),
        Err(IdpError::WitnessError(ahead))
    );
    let same = WitnessError::UnexpectedSequenceNumber { expected: 5, got: 5 };
    assert_eq!(
        Publisher::handle_notification_reply(&WitnessToIdPMessage::PublishVote(Err(same.clone())).serialize()),
        Err(IdpError::WitnessError(same))
    );
    let conflict = WitnessError::ConflictingNotification {
        lock_root: Digest([1; 32]),
        received_root: Digest([2; 32]),
    };
    assert_eq!(
        Publisher::handle_notification_reply(&WitnessToIdPMessage::PublishVote(Err(conflict.clone())).serialize()),
        Err(IdpError::WitnessError(conflict))
    );
    let state = WitnessToIdPMessage::State(Ok(State::default()));
    assert_eq!(Publisher::handle_notification_reply(&state.serialize()), Err(IdpError::UnexpectedProtocolMessage));
    let response = WitnessToIdPMessage::PublishCertificateResponse(vec![1]);
    assert_eq!(
        Publisher::handle_notification_reply(&response.serialize()),
        Err(IdpError::UnexpectedProtocolMessage)
    );
    assert_eq!(Publisher::handle_notification_reply(&[1, 2, 3]), Err(IdpError::UnexpectedProtocolMessage));
}

#[test]
fn publisher_drops_what_it_cannot_use() {
    let committee = idp_committee(9_200);
    let mut publisher = Publisher::new(committee.clone());
    assert!(matches!(publisher.on_reply(&[0xff]), Step::Finished));
    assert_eq!(publisher.names().len(), 4);
    assert_eq!(publisher.addresses().len(), 4);
    let listed = committee.witnesses_addresses();
    for (i, (name, address)) in listed.iter().enumerate() {
        assert_eq!(publisher.names()[i], *name);
        assert_eq!(publisher.addresses()[i], *address);
    }
    let notification = idp_notification(9, 1);
    let _ = publisher.start(&notification);
    assert!(matches!(
        publisher.on_reply(&[0xff]),
        Step::Dropped(IdpError::UnexpectedProtocolMessage)
    ));
    let other = idp_votes(&idp_notification(8, 1)).remove(0);
    match publisher.on_vote(other) {
        Step::Dropped(IdpError::UnexpectedVote { expected, received }) => {
            assert_eq!(expected, Digest([9; 32]));
            assert_eq!(received, Digest([8; 32]));
        }
        _ => panic!("Unexpected step"),
    }
    let votes = idp_votes(&notification);
    assert!(matches!(publisher.on_vote(votes[0]), Step::Wait));
    assert!(matches!(
        publisher.on_vote(votes[0]),
        Step::Dropped(IdpError::MessageError(MessageError::WitnessReuse(_)))
    ));
    assert!(matches!(publisher.on_vote(votes[1]), Step::Wait));
    assert!(matches!(publisher.on_vote(votes[2]), Step::Certificate(_)));
    assert!(matches!(publisher.on_vote(votes[3]), Step::Finished));
    assert!(matches!(publisher.on_vote(votes[2]), Step::Finished));
    assert!(matches!(publisher.on_reply(&[0xff]), Step::Finished));
    let _ = publisher.start(&idp_notification(8, 2));
    assert!(matches!(publisher.on_vote(other), Step::Wait));
}

#[test]
fn aggregator_makes_one_certificate_at_quorum() {
    let committee = idp_committee(9_300);
    let notification = idp_notification(9, 4);
    let votes = idp_votes(&notification);
    let mut aggregator = Aggregator::new(committee.clone(), notification.root);
    assert_eq!(aggregator.append(votes[0]).unwrap().map(|c| c.votes.len()), None);
    assert_eq!(aggregator.append(votes[1]).unwrap().map(|c| c.votes.len()), None);
    let certificate: PublishCertificate = aggregator.append(votes[2]).unwrap().unwrap();
    assert_eq!(certificate.root, Digest([9; 32]));
    assert_eq!(certificate.sequence_number, 4);
    assert_eq!(
        certificate.votes,
        vec![
            (votes[0].author, votes[0].signature),
            (votes[1].author, votes[1].signature),
            (votes[2].author, votes[2].signature)
        ]
    );
    assert_eq!(certificate.check_quorum(&committee), Ok(()));
    assert!(certificate.verify(&committee).is_ok());
    assert!(aggregator.append(votes[3]).unwrap().is_none());
    assert_eq!(
        aggregator.append(votes[3]).map(|c| c.is_some()),
        Err(IdpError::MessageError(MessageError::WitnessReuse(votes[3].author)))
    );
    aggregator.reset(Digest([9; 32]));
    assert!(aggregator.append(votes[3]).unwrap().is_none());
    assert!(aggregator.append(votes[2]).unwrap().is_none());
    let second = aggregator.append(votes[0]).unwrap().unwrap();
    assert_eq!(second.votes.len(), 3);
    assert_eq!(second.votes[0].0, votes[3].author);
}

#[test]
fn aggregator_refuses_bad_votes() {
    let committee = idp_committee(9_400);
    let notification = idp_notification(9, 4);
    let votes = idp_votes(&notification);
    let mut aggregator = Aggregator::new(committee.clone(), notification.root);

    let other = idp_votes(&idp_notification(8, 4)).remove(0);
    assert_eq!(
        aggregator.append(other).map(|c| c.is_some()),
        Err(IdpError::UnexpectedVote { expected: Digest([9; 32]), received: Digest([8; 32]) })
    );
    assert_eq!(aggregator.precheck(&other).map(|_| ()), aggregator.append(other).map(|_| ()));

    let stranger = KeyPair::from_seed([77; 32]);
    let strange = PublishVote::new(&notification, &stranger);
    assert_eq!(
        aggregator.append(strange).map(|c| c.is_some()),
        Err(IdpError::MessageError(MessageError::UnknownWitness(stranger.public())))
    );

    assert_eq!(aggregator.precheck(&votes[0]), Ok(1));
    let mut forged = votes[0];
    forged.signature = votes[1].signature;
    assert!(matches!(
        aggregator.append(forged),
        Err(IdpError::MessageError(MessageError::InvalidSignature(_)))
    ));
    // The author of the forged vote counts as used.
    assert_eq!(
        aggregator.append(votes[0]).map(|c| c.is_some()),
        Err(IdpError::MessageError(MessageError::WitnessReuse(votes[0].author)))
    );
    assert!(aggregator.append(votes[1]).unwrap().is_none());
    assert!(aggregator.append(votes[2]).unwrap().is_none());
    let certificate = aggregator.append(votes[3]).unwrap().unwrap();
    assert_eq!(certificate.votes.len(), 3);
    assert!(certificate.verify(&committee).is_ok());
}

#[test]
fn aggregator_follows_the_check_it_is_given() {
    let committee = idp_committee(9_500);
    let notification = idp_notification(9, 4);
    let votes = idp_votes(&notification);
    let mut aggregator = Aggregator::new(committee, notification.root);
    assert_eq!(
        aggregator.append_checked(votes[0], Err("no".to_string())).map(|c| c.is_some()),
        Err(IdpError::MessageError(MessageError::InvalidSignature("no".to_string())))
    );
    assert!(aggregator.append_checked(votes[1], Ok(())).unwrap().is_none());
    assert!(aggregator.append_checked(votes[2], Ok(())).unwrap().is_none());
    assert!(aggregator.append_checked(votes[3], Ok(())).unwrap().is_some());
}

#[test]
fn aggregator_weighs_votes() {
    let keys: Vec<KeyPair> = (1..=3u8).map(|i| KeyPair::from_seed([i; 32])).collect();
    let powers = [5u32, 3, 2];
    let witnesses = keys
        .iter()
        .zip(powers.iter())
        .map(|(key, power)| (key.public(), Witness { voting_power: *power, address: "a:1".to_string() }))
        .collect();
    let idp = KeyPair::from_seed([9; 32]);
    let committee =
        Committee::new(Idp { name: idp.public(), address: "b:1".to_string() }, witnesses).unwrap();
    assert_eq!(committee.quorum_threshold(), 7);
    let notification = PublishNotification::new(Digest([1; 32]), Vec::new(), 0, &idp);
    let mut aggregator = Aggregator::new(committee.clone(), notification.root);
    assert!(aggregator.append(PublishVote::new(&notification, &keys[1])).unwrap().is_none());
    assert!(aggregator.append(PublishVote::new(&notification, &keys[2])).unwrap().is_none());
    assert!(aggregator.append(PublishVote::new(&notification, &keys[0])).unwrap().is_some());
    aggregator.reset(notification.root);
    assert!(aggregator.append(PublishVote::new(&notification, &keys[0])).unwrap().is_none());
    assert!(aggregator.append(PublishVote::new(&notification, &keys[2])).unwrap().is_some());
    assert!(aggregator.append(PublishVote::new(&notification, &keys[1])).unwrap().is_none());
}

#[test]
fn batcher_reads_requests() {
    assert_eq!(
        Batcher::deserialize(b"AAAA,BBBB"),
        Ok(("AAAA".to_string(), ",BBBB".to_string()))
    );
    assert_eq!(Batcher::deserialize(b"ab"), Ok(("a".to_string(), "b".to_string())));
    assert_eq!(Batcher::deserialize(b"abc"), Ok(("a".to_string(), "bc".to_string())));
    assert_eq!(Batcher::deserialize(b"a"), Err(IdpError::InvalidRequest));
    assert_eq!(Batcher::deserialize(b""), Err(IdpError::InvalidRequest));
    assert_eq!(
        Batcher::deserialize(&[b'a', 0xff, b'b', b'c']),
        Ok(("a\u{fffd}".to_string(), "bc".to_string()))
    );
    assert_eq!(split_request(&[1, 2, 3, 4, 5]), Ok((&[1u8, 2][..], &[3u8, 4, 5][..])));
    assert_eq!(split_request(&[1]), Err(IdpError::InvalidRequest));
}

#[test]
fn batcher_seals_full_batches_and_on_the_timer() {
    let mut batcher = Batcher::new(3, 200);
    assert_eq!(batcher.max_batch_delay(), 200);
    assert_eq!(batcher.on_timer(), None);
    assert_eq!(batcher.on_request(b"k1v1"), None);
    assert_eq!(batcher.on_request(b"x"), None);
    assert_eq!(batcher.on_request(b"k2v2"), None);
    assert_eq!(
        batcher.on_request(b"k3v3"),
        Some(vec![
            ("k1".to_string(), "v1".to_string()),
            ("k2".to_string(), "v2".to_string()),
            ("k3".to_string(), "v3".to_string())
        ])
    );
    assert_eq!(batcher.on_timer(), None);
    assert_eq!(batcher.on_request(b"k4v4"), None);
    assert_eq!(batcher.on_timer(), Some(vec![("k4".to_string(), "v4".to_string())]));
    assert_eq!(batcher.on_timer(), None);
    assert_eq!(batcher.on_request(b"k5v5"), None);
    assert_eq!(batcher.seal(), vec![("k5".to_string(), "v5".to_string())]);
    assert!(batcher.seal().is_empty());
    let mut eager = Batcher::new(0, 1);
    assert_eq!(eager.on_request(b"k1v1"), Some(vec![("k1".to_string(), "v1".to_string())]));
}

#[test]
fn prover_takes_up_the_last_notification() {
    let (_, keypair) = idp_keys().pop().unwrap();
    let (mut fresh, again) = Prover::initialize(keypair.clone(), None).unwrap();
    assert!(again.is_none());
    assert_eq!(fresh.sequence_number(), 0);
    let first = fresh.make_notification(Digest([1; 32]), vec![1]);
    let second = fresh.make_notification(Digest([2; 32]), vec![2]);
    assert_eq!((first.sequence_number, second.sequence_number), (1, 2));
    assert_eq!(fresh.sequence_number(), 2);
    assert_eq!(fresh.epochs(), (2, 3));
    assert_eq!(second.root, Digest([2; 32]));
    assert_eq!(second.proof, vec![2]);
    assert!(second.verify(&idp_committee(0), &Digest::default()).is_ok());

    let record = notification_record(&second);
    let (mut resumed, again) = Prover::initialize(keypair.clone(), Some(&record.value[..])).unwrap();
    let again = again.unwrap();
    assert_eq!(again.sequence_number, 2);
    assert_eq!(notification_record(&again).value, record.value);
    assert_eq!(resumed.sequence_number(), 2);
    assert_eq!(resumed.make_notification(Digest([3; 32]), Vec::new()).sequence_number, 3);

    assert!(Prover::initialize(keypair.clone(), Some(&[1, 2, 3])).is_none());
    let mut longer = record.value.clone();
    longer.push(0);
    assert!(Prover::initialize(keypair, Some(&longer[..])).is_none());
}

#[test]
fn stores_hold_what_was_written() {
    assert_eq!(STORE_SEQ_ADDR, [0u8; 32]);
    assert_eq!(STORE_LOCK_ADDR, [1u8; 32]);
    assert_eq!(STORE_LAST_NOTIFICATION_ADDR, [255u8; 32]);
    let record = sequence_record(0x0102);
    assert_eq!(record.key, vec![0u8; 32]);
    assert_eq!(record.value, vec![2, 1, 0, 0, 0, 0, 0, 0]);
    assert_eq!(load_sequence_number(Some(&record.value[..])), Some(0x0102));
    assert_eq!(load_sequence_number(None), Some(0));
    assert_eq!(load_sequence_number(Some(&[1, 2, 3])), None);
    assert_eq!(load_sequence_number(Some(&[0; 9])), None);

    let vote = idp_votes(&idp_notification(9, 1)).remove(0);
    let lock = lock_record(&Some(vote));
    assert_eq!(lock.key, vec![1u8; 32]);
    assert_eq!(load_lock(Some(&lock.value[..])), Some(Some(vote)));
    assert_eq!(load_lock(Some(&lock_record(&None).value[..])), Some(None));
    assert_eq!(load_lock(None), Some(None));
    assert_eq!(load_lock(Some(&[])), None);
    assert_eq!(load_lock(Some(&[0, 0])), None);

    let notification = idp_notification(9, 1);
    let stored = notification_record(&notification);
    assert_eq!(stored.key, vec![255u8; 32]);
    let loaded = load_notification(Some(&stored.value[..])).unwrap().unwrap();
    assert_eq!(loaded.id, notification.id);
    assert!(load_notification(None).unwrap().is_none());
    assert!(load_notification(Some(&[1])).is_none());

    let certificate = PublishCertificate {
        root: Digest([9; 32]),
        sequence_number: 258,
        votes: vec![(vote.author, vote.signature)],
    };
    let archived = certificate_record(&certificate);
    assert_eq!(archived.key, vec![2, 1, 0, 0, 0, 0, 0, 0]);
    assert_eq!(archived.key, certificate_key(258));
    assert_eq!(archived.value.len(), 48 + 96);
}

#[test]
fn synchronizer_waits_for_a_quorum() {
    let committee = idp_committee(9_600);
    let names: Vec<PublicKey> = idp_keys().iter().map(|(name, _)| *name).collect();
    let synchronizer = Synchronizer::new(committee);
    assert_eq!(Synchronizer::state_query(), vec![2, 0, 0, 0]);
    assert_eq!(synchronizer.answers_for_quorum(&names), Some(3));
    assert_eq!(synchronizer.answers_for_quorum(&names[..2].to_vec()), None);
    assert_eq!(synchronizer.answers_for_quorum(&Vec::new()), None);
    let stranger = PublicKey([7; 32]);
    let mixed = vec![names[0], stranger, names[1], stranger, names[2], names[3]];
    assert_eq!(synchronizer.answers_for_quorum(&mixed), Some(5));
}

#[test]
fn publish_at_genesis_is_certified_by_three_of_four() {
    let committee = idp_committee(9_700);
    let mut publisher = Publisher::new(committee.clone());
    let mut witnesses: Vec<PublishHandler> = idp_keys()
        .into_iter()
        .map(|(_, key)| PublishHandler::new(key, committee.clone()))
        .collect();

    let notification = idp_notification(0, 0);
    let (_, message) = publisher.start(&notification);
    let mut certificates = Vec::new();
    for (i, witness) in witnesses.iter_mut().enumerate() {
        let reply = match dispatch(witness, &message) {
            Some(Reaction::Answer { reply, .. }) => reply,
            _ => panic!("Unexpected protocol message"),
        };
        match &reply {
            WitnessToIdPMessage::PublishVote(Ok(vote)) => {
                assert_eq!(vote.root, Digest([0; 32]));
                assert_eq!(vote.sequence_number, 0);
                assert_eq!(vote.author, idp_keys()[i].0);
            }
            _ => panic!("Unexpected protocol message"),
        }
        if let Step::Certificate(bytes) = publisher.on_reply(&reply.serialize()) {
            assert_eq!(i, 2);
            certificates.push(bytes);
        }
    }
    assert_eq!(certificates.len(), 1);
    match IdPToWitnessMessage::deserialize(&certificates[0]) {
        Some(IdPToWitnessMessage::PublishCertificate(certificate)) => {
            let authors: Vec<PublicKey> = certificate.votes.iter().map(|(name, _)| *name).collect();
            assert_eq!(authors, vec![idp_keys()[0].0, idp_keys()[1].0, idp_keys()[2].0]);
            assert_eq!((certificate.root, certificate.sequence_number), (Digest([0; 32]), 0));
        }
        _ => panic!("Unexpected protocol message"),
    }
    for witness in witnesses.iter_mut() {
        match dispatch(witness, &certificates[0]) {
            Some(Reaction::Answer { reply: WitnessToIdPMessage::State(Ok(state)), .. }) => {
                assert_eq!(state.sequence_number, 1);
                assert_eq!(state.lock, None);
            }
            _ => panic!("Unexpected protocol message"),
        }
    }
}

#[test]
fn notification_ahead_of_the_witnesses_gathers_no_votes() {
    let committee = idp_committee(9_800);
    let mut publisher = Publisher::new(committee.clone());
    let mut witnesses: Vec<PublishHandler> = idp_keys()
        .into_iter()
        .map(|(_, key)| PublishHandler::new(key, committee.clone()))
        .collect();
    let (_, message) = publisher.start(&idp_notification(0, 1));
    for witness in witnesses.iter_mut() {
        let reply = match dispatch(witness, &message) {
            Some(Reaction::Answer { reply, secure, .. }) => {
                assert!(secure.is_empty());
                reply
            }
            _ => panic!("Unexpected protocol message"),
        };
        assert!(matches!(
            reply,
            WitnessToIdPMessage::PublishVote(Err(WitnessError::UnexpectedSequenceNumber {
                expected: 0,
                got: 1
            }))
        ));
        assert!(matches!(publisher.on_reply(&reply.serialize()), Step::Synchronize));
        assert_eq!(witness.state(), State::default());
    }
}
