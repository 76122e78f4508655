//! What witnesses and the identity provider keep in their stores: under
//! which key, and in which form.

use crate::codec::{
    certificate_bytes, lock_bytes, notification_bytes, parse_lock, parse_notification, put_certificate,
    put_lock, put_notification, read_lock, read_notification,
};
use crate::error::SequenceNumber;
use crate::publish::{PublishCertificate, PublishNotification, PublishNotificationView, PublishVote};
use crate::wire::{number_bytes, parse_number, put_number, read_number};
use vstd::prelude::*;

verus! {

/// The key under which a witness keeps its sequence number.
pub const STORE_SEQ_ADDR: [u8; 32] = [
    0, 0, 0, 0, 0, 0, 0, 0, 0, 0, 0, 0, 0, 0, 0, 0,
    0, 0, 0, 0, 0, 0, 0, 0, 0, 0, 0, 0, 0, 0, 0, 0,
];

/// The key under which a witness keeps its lock.
pub const STORE_LOCK_ADDR: [u8; 32] = [
    1, 1, 1, 1, 1, 1, 1, 1, 1, 1, 1, 1, 1, 1, 1, 1,
    1, 1, 1, 1, 1, 1, 1, 1, 1, 1, 1, 1, 1, 1, 1, 1,
];

/// The key under which the identity provider keeps its last notification.
pub const STORE_LAST_NOTIFICATION_ADDR: [u8; 32] = [
    255, 255, 255, 255, 255, 255, 255, 255, 255, 255, 255, 255, 255, 255, 255, 255,
    255, 255, 255, 255, 255, 255, 255, 255, 255, 255, 255, 255, 255, 255, 255, 255,
];

/// A key of 32 bytes that are all `byte`.
pub open spec fn uniform_key(byte: u8) -> Seq<u8> {
    Seq::new(32, |i: int| byte)
}

/// One write to a store.
#[derive(Debug)]
pub struct StorageWrite {
    pub key: Vec<u8>,
    pub value: Vec<u8>,
}

/// A `StorageWrite` as two sequences of bytes.
pub struct StorageWriteView {
    pub key: Seq<u8>,
    pub value: Seq<u8>,
}

impl View for StorageWrite {
    type V = StorageWriteView;

    open spec fn view(&self) -> StorageWriteView {
        StorageWriteView { key: self.key@, value: self.value@ }
    }
}

fn key_of(address: &[u8; 32]) -> (key: Vec<u8>)
    ensures
        key@ == address@,
{
    vstd::slice::slice_to_vec(address.as_slice())
}

/// The three keys are 32 bytes of 0, of 1 and of 255.
pub proof fn lemma_store_addresses()
    ensures
        STORE_SEQ_ADDR@ == uniform_key(0),
        STORE_LOCK_ADDR@ == uniform_key(1),
        STORE_LAST_NOTIFICATION_ADDR@ == uniform_key(255),
{
    assert(STORE_SEQ_ADDR@ =~= uniform_key(0));
    assert(STORE_LOCK_ADDR@ =~= uniform_key(1));
    assert(STORE_LAST_NOTIFICATION_ADDR@ =~= uniform_key(255));
}

/// The write that stores a witness's sequence number: eight bytes, the low
/// byte first.
pub open spec fn sequence_write(number: SequenceNumber) -> StorageWriteView {
    StorageWriteView { key: uniform_key(0), value: number_bytes(number) }
}

/// The write that stores a witness's lock, present or not.
pub open spec fn lock_write(lock: Option<PublishVote>) -> StorageWriteView {
    StorageWriteView { key: uniform_key(1), value: lock_bytes(lock) }
}

/// The write that archives a certificate, under its sequence number.
pub open spec fn certificate_write(certificate: crate::publish::PublishCertificateView) -> StorageWriteView {
    StorageWriteView {
        key: number_bytes(certificate.sequence_number),
        value: certificate_bytes(certificate),
    }
}

/// The write that stores the identity provider's last notification.
pub open spec fn notification_write(notification: PublishNotificationView) -> StorageWriteView {
    StorageWriteView { key: uniform_key(255), value: notification_bytes(notification) }
}

/// The write that stores a witness's sequence number.
pub fn sequence_record(number: SequenceNumber) -> (write: StorageWrite)
    ensures
        write@ == sequence_write(number),
{
    let mut value: Vec<u8> = Vec::new();
    put_number(&mut value, number);
    assert(value@ =~= number_bytes(number));
    proof {
        lemma_store_addresses();
    }
    StorageWrite { key: key_of(&STORE_SEQ_ADDR), value }
}

/// The write that stores a witness's lock.
pub fn lock_record(lock: &Option<PublishVote>) -> (write: StorageWrite)
    ensures
        write@ == lock_write(*lock),
{
    let mut value: Vec<u8> = Vec::new();
    put_lock(&mut value, lock);
    assert(value@ =~= lock_bytes(*lock));
    proof {
        lemma_store_addresses();
    }
    StorageWrite { key: key_of(&STORE_LOCK_ADDR), value }
}

/// The key under which the certificate of a sequence number is archived.
pub fn certificate_key(number: SequenceNumber) -> (key: Vec<u8>)
    ensures
        key@ == number_bytes(number),
{
    let mut key: Vec<u8> = Vec::new();
    put_number(&mut key, number);
    assert(key@ =~= number_bytes(number));
    key
}

/// The write that archives a certificate.
pub fn certificate_record(certificate: &PublishCertificate) -> (write: StorageWrite)
    ensures
        write@ == certificate_write(certificate@),
{
    let mut value: Vec<u8> = Vec::new();
    put_certificate(&mut value, certificate);
    assert(value@ =~= certificate_bytes(certificate@));
    StorageWrite { key: certificate_key(certificate.sequence_number), value }
}

/// The write that stores the identity provider's last notification.
pub fn notification_record(notification: &PublishNotification) -> (write: StorageWrite)
    ensures
        write@ == notification_write(notification@),
{
    let mut value: Vec<u8> = Vec::new();
    put_notification(&mut value, notification);
    assert(value@ =~= notification_bytes(notification@));
    proof {
        lemma_store_addresses();
    }
    StorageWrite { key: key_of(&STORE_LAST_NOTIFICATION_ADDR), value }
}

/// The sequence number that a witness's store holds: 0 where it holds
/// none. Nothing where what it holds is not eight bytes.
pub open spec fn stored_sequence_number(stored: Option<Seq<u8>>) -> Option<SequenceNumber> {
    match stored {
        None => Some(0),
        Some(bytes) => if bytes.len() == 8 {
            match parse_number(bytes) {
                Some((number, _)) => Some(number),
                None => None,
            }
        } else {
            None
        },
    }
}

/// The lock that a witness's store holds: none where it holds nothing.
/// Nothing where what it holds is no lock, or a lock and more.
pub open spec fn stored_lock(stored: Option<Seq<u8>>) -> Option<Option<PublishVote>> {
    match stored {
        None => Some(None),
        Some(bytes) => match parse_lock(bytes) {
            Some((lock, taken)) => if taken == bytes.len() {
                Some(lock)
            } else {
                None
            },
            None => None,
        },
    }
}

/// The notification that the identity provider's store holds, if it holds
/// one. The outer `None` says that what it holds is no notification.
pub open spec fn stored_notification(stored: Option<Seq<u8>>) -> Option<
    Option<PublishNotificationView>,
> {
    match stored {
        None => Some(None),
        Some(bytes) => match parse_notification(bytes) {
            Some((notification, taken)) => if taken == bytes.len() {
                Some(Some(notification))
            } else {
                None
            },
            None => None,
        },
    }
}

/// What a witness finds in its store after a crash is what it wrote there:
/// the sequence number and the lock read back as themselves.
pub proof fn lemma_witness_store_round_trip(number: SequenceNumber, lock: Option<PublishVote>)
    ensures
        stored_sequence_number(Some(sequence_write(number).value)) == Some(number),
        stored_lock(Some(lock_write(lock).value)) == Some(lock),
{
    crate::wire::lemma_number_round_trip(number, Seq::empty());
    assert(number_bytes(number) + Seq::<u8>::empty() =~= number_bytes(number));
    crate::codec::lemma_lock_round_trip(lock, Seq::empty());
    assert(lock_bytes(lock) + Seq::<u8>::empty() =~= lock_bytes(lock));
}

/// What the identity provider finds in its store after a crash is the
/// notification that it wrote there, where the length of the proof fits in
/// 64 bits.
pub proof fn lemma_notification_store_round_trip(notification: PublishNotificationView)
    requires
        notification.proof.len() <= u64::MAX,
    ensures
        stored_notification(Some(notification_write(notification).value)) == Some(
            Some(notification),
        ),
{
    crate::codec::lemma_notification_round_trip(notification, Seq::empty());
    assert(notification_bytes(notification) + Seq::<u8>::empty() =~= notification_bytes(
        notification,
    ));
}

/// Reads the sequence number that a witness has stored.
pub fn load_sequence_number(stored: Option<&[u8]>) -> (loaded: Option<SequenceNumber>)
    ensures
        loaded == stored_sequence_number(
            match stored {
                Some(bytes) => Some(bytes@),
                None => None,
            },
        ),
{
    match stored {
        None => Some(0),
        Some(bytes) => {
            if bytes.len() != 8 {
                return None;
            }
            assert(bytes@.skip(0) =~= bytes@);
            match read_number(bytes, 0) {
                Some((number, _)) => Some(number),
                None => None,
            }
        },
    }
}

/// Reads the lock that a witness has stored.
pub fn load_lock(stored: Option<&[u8]>) -> (loaded: Option<Option<PublishVote>>)
    ensures
        loaded == stored_lock(
            match stored {
                Some(bytes) => Some(bytes@),
                None => None,
            },
        ),
{
    match stored {
        None => Some(None),
        Some(bytes) => {
            assert(bytes@.skip(0) =~= bytes@);
            match read_lock(bytes, 0) {
                Some((lock, end)) => if end == bytes.len() {
                    Some(lock)
                } else {
                    None
                },
                None => None,
            }
        },
    }
}

/// Reads the notification that the identity provider has stored.
pub fn load_notification(stored: Option<&[u8]>) -> (loaded: Option<Option<PublishNotification>>)
    ensures
        match stored_notification(
            match stored {
                Some(bytes) => Some(bytes@),
                None => None,
            },
        ) {
            Some(Some(notification)) => loaded matches Some(Some(found)) && found@ == notification,
            Some(None) => loaded matches Some(None),
            None => loaded is None,
        },
{
    match stored {
        None => Some(None),
        Some(bytes) => {
            assert(bytes@.skip(0) =~= bytes@);
            match read_notification(bytes, 0) {
                Some((notification, end)) => if end == bytes.len() {
                    Some(Some(notification))
                } else {
                    None
                },
                None => None,
            }
        },
    }
}

} // verus!
