use key_transparency::committee::{Committee, Idp, Witness};
use key_transparency::crypto::{bytes_equal, bytes_less, PublicKey};

fn committee_of(powers: &[u32]) -> Option<Committee> {
    let witnesses = powers
        .iter()
        .enumerate()
        .map(|(i, power)| {
            (
                PublicKey([200 - i as u8; 32]),
                Witness { voting_power: *power, address: format!("10.0.0.{}:9000", i) },
            )
        })
        .collect();
    Committee::new(Idp { name: PublicKey([255; 32]), address: "10.0.0.255:9000".to_string() }, witnesses)
}

#[test]
fn quorum_is_two_thirds_plus_one() {
    assert_eq!(committee_of(&[1, 1, 1, 1]).unwrap().quorum_threshold(), 3);
    assert_eq!(committee_of(&[1]).unwrap().quorum_threshold(), 1);
    assert_eq!(committee_of(&[1, 1, 1]).unwrap().quorum_threshold(), 3);
    assert_eq!(committee_of(&[1; 10]).unwrap().quorum_threshold(), 7);
    assert_eq!(committee_of(&[50, 30, 20]).unwrap().quorum_threshold(), 67);
    assert_eq!(committee_of(&[]).unwrap().quorum_threshold(), 1);
    assert_eq!(committee_of(&[u32::MAX]).unwrap().quorum_threshold(), 2863311531);
}

#[test]
fn total_voting_power_adds_up() {
    assert_eq!(committee_of(&[50, 30, 20]).unwrap().total_voting_power(), 100);
    assert_eq!(committee_of(&[]).unwrap().total_voting_power(), 0);
    assert_eq!(committee_of(&[u32::MAX - 1, 1]).unwrap().total_voting_power(), u32::MAX);
    assert_eq!(committee_of(&[1, 2, 3]).unwrap().size(), 3);
}

#[test]
fn voting_power_beyond_the_machine_is_refused() {
    assert!(committee_of(&[u32::MAX, 1]).is_none());
    assert!(committee_of(&[1, u32::MAX]).is_none());
}

#[test]
fn repeated_key_is_refused() {
    let witness = || Witness { voting_power: 1, address: "a:1".to_string() };
    let idp = Idp { name: PublicKey([255; 32]), address: "b:1".to_string() };
    let witnesses =
        vec![(PublicKey([1; 32]), witness()), (PublicKey([2; 32]), witness()), (PublicKey([1; 32]), witness())];
    assert!(Committee::new(idp, witnesses).is_none());
}

#[test]
fn voting_power_of_members_and_strangers() {
    let committee = committee_of(&[50, 30, 20]).unwrap();
    assert_eq!(committee.voting_power(&PublicKey([200; 32])), 50);
    assert_eq!(committee.voting_power(&PublicKey([199; 32])), 30);
    assert_eq!(committee.voting_power(&PublicKey([198; 32])), 20);
    assert_eq!(committee.voting_power(&PublicKey([197; 32])), 0);
    assert_eq!(committee.voting_power(&PublicKey([255; 32])), 0);
}

#[test]
fn addresses_are_found_by_key() {
    let committee = committee_of(&[50, 30, 20]).unwrap();
    assert_eq!(committee.witness_address(&PublicKey([199; 32])), Some("10.0.0.1:9000".to_string()));
    assert_eq!(committee.witness_address(&PublicKey([1; 32])), None);
    assert_eq!(committee.identity_provider(), PublicKey([255; 32]));
    assert_eq!(committee.identity_provider_address(), "10.0.0.255:9000".to_string());
}

#[test]
fn addresses_are_listed_in_the_order_of_the_keys() {
    let committee = committee_of(&[50, 30, 20]).unwrap();
    assert_eq!(
        committee.witnesses_addresses(),
        vec![
            (PublicKey([198; 32]), "10.0.0.2:9000".to_string()),
            (PublicKey([199; 32]), "10.0.0.1:9000".to_string()),
            (PublicKey([200; 32]), "10.0.0.0:9000".to_string()),
        ]
    );
}

#[test]
fn order_of_insertion_does_not_matter() {
    let witness = |power: u32, address: &str| Witness { voting_power: power, address: address.to_string() };
    let idp = || Idp { name: PublicKey([255; 32]), address: "b:1".to_string() };
    let mut low = [0u8; 32];
    low[31] = 1;
    let mut high = [0u8; 32];
    high[0] = 1;
    let one = Committee::new(
        idp(),
        vec![(PublicKey(high), witness(2, "high")), (PublicKey(low), witness(1, "low")), (PublicKey([0; 32]), witness(3, "zero"))],
    )
    .unwrap();
    let other = Committee::new(
        idp(),
        vec![(PublicKey([0; 32]), witness(3, "zero")), (PublicKey(high), witness(2, "high")), (PublicKey(low), witness(1, "low"))],
    )
    .unwrap();
    let expected = vec![
        (PublicKey([0; 32]), "zero".to_string()),
        (PublicKey(low), "low".to_string()),
        (PublicKey(high), "high".to_string()),
    ];
    assert_eq!(one.witnesses_addresses(), expected);
    assert_eq!(other.witnesses_addresses(), expected);
    assert_eq!(one.clone().witnesses_addresses(), expected);
    assert_eq!(one.clone().quorum_threshold(), 5);
}

#[test]
fn bytes_are_compared_as_in_a_dictionary() {
    assert!(bytes_less(&[1, 2, 3], &[1, 2, 4]));
    assert!(!bytes_less(&[1, 2, 4], &[1, 2, 3]));
    assert!(bytes_less(&[0, 255, 255], &[1, 0, 0]));
    assert!(!bytes_less(&[1, 2, 3], &[1, 2, 3]));
    assert!(!bytes_less(&[], &[]));
    assert!(bytes_equal(&[1, 2, 3], &[1, 2, 3]));
    assert!(!bytes_equal(&[1, 2, 3], &[1, 2]));
    assert!(!bytes_equal(&[1, 2, 3], &[1, 2, 4]));
    assert!(PublicKey([1; 32]).sorts_before(&PublicKey([2; 32])));
    assert!(!PublicKey([2; 32]).sorts_before(&PublicKey([2; 32])));
}
