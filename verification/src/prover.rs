//! The prover: it numbers the states that the identity provider publishes,
//! and signs the notification for each.

use crate::crypto::{ed25519_signature, KeyPair};
use crate::error::SequenceNumber;
use crate::publish::{message_digest, Proof, PublishNotification, PublishNotificationView, Root};
use crate::storage::{load_notification, stored_notification};
use vstd::prelude::*;

verus! {

/// Numbers and signs the identity provider's notifications.
pub struct Prover {
    keypair: KeyPair,
    sequence_number: SequenceNumber,
}

/// The sequence number at which a prover takes up its work: that of the
/// last notification stored, or 0 where none is.
pub open spec fn resumed_number(last: Option<PublishNotificationView>) -> SequenceNumber {
    match last {
        Some(notification) => notification.sequence_number,
        None => 0,
    }
}

impl Prover {
    /// The sequence number of the last notification made.
    pub closed spec fn spec_sequence_number(&self) -> SequenceNumber {
        self.sequence_number
    }

    /// The identity provider's key pair.
    pub closed spec fn spec_keypair(&self) -> KeyPair {
        self.keypair
    }

    /// Takes up the work from what the store holds under the key of the
    /// last notification. The second result is that notification, to be
    /// broadcast once more: the identity provider may have crashed before
    /// it was sent. There is no result where what is stored is no
    /// notification.
    pub fn initialize(keypair: KeyPair, stored: Option<&[u8]>) -> (resumed: Option<
        (Prover, Option<PublishNotification>),
    >)
        ensures
            match stored_notification(
                match stored {
                    Some(bytes) => Some(bytes@),
                    None => None,
                },
            ) {
                None => resumed is None,
                Some(last) => {
                    &&& resumed matches Some((prover, again))
                    &&& prover.spec_keypair() == keypair
                    &&& prover.spec_sequence_number() == resumed_number(last)
                    &&& match last {
                        Some(notification) => again matches Some(found) && found@ == notification,
                        None => again is None,
                    }
                },
            },
    {
        match load_notification(stored) {
            None => None,
            Some(None) => Some((Prover { keypair, sequence_number: 0 }, None)),
            Some(Some(notification)) => {
                let sequence_number = notification.sequence_number;
                Some((Prover { keypair, sequence_number }, Some(notification)))
            },
        }
    }

    /// The sequence number of the last notification made.
    pub fn sequence_number(&self) -> (number: SequenceNumber)
        ensures
            number == self.spec_sequence_number(),
    {
        self.sequence_number
    }

    /// The epochs between which the next audit proof runs: the current one
    /// and the one after it.
    pub fn epochs(&self) -> (pair: (SequenceNumber, SequenceNumber))
        requires
            self.spec_sequence_number() < u64::MAX,
        ensures
            pair.0 == self.spec_sequence_number(),
            pair.1 == self.spec_sequence_number() + 1,
    {
        (self.sequence_number, self.sequence_number + 1)
    }

    /// Moves on to the next sequence number, and makes the notification
    /// for the state with `root` that was published at it.
    pub fn make_notification(&mut self, root: Root, proof: Proof) -> (notification:
        PublishNotification)
        requires
            old(self).spec_sequence_number() < u64::MAX,
        ensures
            final(self).spec_sequence_number() == old(self).spec_sequence_number() + 1,
            final(self).spec_keypair() == old(self).spec_keypair(),
            notification.root == root,
            notification.proof@ == proof@,
            notification.sequence_number == final(self).spec_sequence_number(),
            notification.id@ == message_digest(root, notification.sequence_number),
            notification.signature@ == ed25519_signature(
                old(self).spec_keypair().spec_seed(),
                notification.id@,
            ),
    {
        self.sequence_number = self.sequence_number + 1;
        PublishNotification::new(root, proof, self.sequence_number, &self.keypair)
    }
}

} // verus!
