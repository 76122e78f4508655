use key_transparency::committee::{Committee, Idp, Witness};
use key_transparency::crypto::{Digest, KeyPair};
use key_transparency::generator::{generate_key_entries, CertificateGenerator, NotificationGenerator};
use key_transparency::message::IdPToWitnessMessage;
use key_transparency::publish::{PublishNotification, PublishVote};

fn generator_keys() -> Vec<KeyPair> {
    (1..=4u8).map(|i| KeyPair::from_seed([i; 32])).collect()
}

fn generator_committee() -> Committee {
    let witnesses = generator_keys()
        .iter()
        .map(|key| (key.public(), Witness { voting_power: 1, address: "127.0.0.1:1".to_string() }))
        .collect();
    let idp = Idp { name: generator_keys()[3].public(), address: "127.0.0.1:0".to_string() };
    Committee::new(idp, witnesses).unwrap()
}

#[test]
fn generated_notifications_are_valid() {
    let keypair = generator_keys().pop().unwrap();
    let generator = NotificationGenerator::new(keypair.clone(), Digest([3; 32]), vec![1, 2, 3]);
    let bytes = generator.make_notification(17);
    let expected = PublishNotification::new(Digest([3; 32]), vec![1, 2, 3], 17, &keypair);
    assert_eq!(bytes, IdPToWitnessMessage::PublishNotification(expected).serialize());
    match IdPToWitnessMessage::deserialize(&bytes) {
        Some(IdPToWitnessMessage::PublishNotification(notification)) => {
            assert_eq!(notification.sequence_number, 17);
            assert!(notification.verify(&generator_committee(), &Digest::default()).is_ok());
        }
        _ => panic!("Unexpected protocol message"),
    }
    assert_ne!(generator.make_notification(18), bytes);
}

#[test]
fn generated_certificates_hold_a_quorum_of_votes() {
    let committee = generator_committee();
    let idp = generator_keys().pop().unwrap();
    let notification = PublishNotification::new(Digest([3; 32]), Vec::new(), 5, &idp);
    let votes: Vec<PublishVote> =
        generator_keys().iter().map(|key| PublishVote::new(&notification, key)).collect();
    let mut generator = CertificateGenerator::new(committee.clone());
    assert_eq!(generator.committee().quorum_threshold(), 3);
    assert_eq!(generator.try_make_certificate(votes[0]), None);
    assert_eq!(generator.try_make_certificate(votes[1]), None);
    let bytes = generator.try_make_certificate(votes[2]).unwrap();
    match IdPToWitnessMessage::deserialize(&bytes) {
        Some(IdPToWitnessMessage::PublishCertificate(certificate)) => {
            assert_eq!(certificate.root, Digest([3; 32]));
            assert_eq!(certificate.sequence_number, 5);
            assert_eq!(certificate.votes.len(), 3);
            assert_eq!(certificate.votes[2], (votes[2].author, votes[2].signature));
            assert!(certificate.verify(&committee).is_ok());
        }
        _ => panic!("Unexpected protocol message"),
    }
    assert_eq!(generator.try_make_certificate(votes[3]), None);
    generator.clear();
    assert_eq!(generator.try_make_certificate(votes[0]), None);
    assert_eq!(generator.try_make_certificate(votes[0]), None);
    assert!(generator.try_make_certificate(votes[0]).is_some());
}

#[test]
fn key_entries_count_up() {
    let entries = generate_key_entries(300);
    assert_eq!(entries.len(), 300);
    assert_eq!(entries[0], (vec![0; 8], vec![0; 8]));
    assert_eq!(entries[1].0, vec![0, 0, 0, 0, 0, 0, 0, 1]);
    assert_eq!(entries[258].0, vec![0, 0, 0, 0, 0, 0, 1, 2]);
    assert_eq!(entries[258].1, 258u64.to_be_bytes().to_vec());
    assert!(generate_key_entries(0).is_empty());
}
