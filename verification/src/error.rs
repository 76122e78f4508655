//! The errors of the protocol, and what each one holds.

use crate::crypto::{Digest, PublicKey};
use vstd::prelude::*;
use vstd::std_specs::convert::FromSpecImpl;

verus! {

/// The sequence number of a published state: the n-th state has number n.
pub type SequenceNumber = u64;

/// Results of parsing and verifying protocol messages.
pub type MessageResult<T> = Result<T, MessageError>;

/// Results that a witness sends back to the identity provider.
pub type WitnessResult<T> = Result<T, WitnessError>;

/// Results of the identity provider's own steps.
pub type IdpResult<T> = Result<T, IdpError>;

/// Errors found in a protocol message itself.
#[derive(Debug, Clone, PartialEq, Eq)]
pub enum MessageError {
    /// The identifier of a notification is not the digest of its fields.
    MalformedNotificationId(Digest),
    /// A signature did not verify; the text is the verifier's.
    InvalidSignature(String),
    /// The author of a vote has no voting power.
    UnknownWitness(PublicKey),
    /// A witness occurs more than once in a quorum.
    WitnessReuse(PublicKey),
    /// The votes of a certificate weigh less than a quorum.
    CertificateRequiresQuorum,
}

/// A `MessageError`, with its text as a sequence of characters.
pub enum MessageErrorView {
    MalformedNotificationId(Digest),
    InvalidSignature(Seq<char>),
    UnknownWitness(PublicKey),
    WitnessReuse(PublicKey),
    CertificateRequiresQuorum,
}

impl View for MessageError {
    type V = MessageErrorView;

    open spec fn view(&self) -> MessageErrorView {
        match self {
            MessageError::MalformedNotificationId(id) => MessageErrorView::MalformedNotificationId(
                *id,
            ),
            MessageError::InvalidSignature(text) => MessageErrorView::InvalidSignature(text@),
            MessageError::UnknownWitness(name) => MessageErrorView::UnknownWitness(*name),
            MessageError::WitnessReuse(name) => MessageErrorView::WitnessReuse(*name),
            MessageError::CertificateRequiresQuorum => MessageErrorView::CertificateRequiresQuorum,
        }
    }
}

/// Errors with which a witness answers the identity provider.
#[derive(Debug, Clone, PartialEq, Eq)]
pub enum WitnessError {
    /// The message itself is at fault.
    MessageError(MessageError),
    /// A notification bears another sequence number than the witness is at.
    UnexpectedSequenceNumber { expected: SequenceNumber, got: SequenceNumber },
    /// A notification commits to another root than the one the witness has
    /// voted for at this sequence number.
    ConflictingNotification { lock_root: Digest, received_root: Digest },
    /// A certificate lies ahead of the witness, which is at the number given.
    MissingEarlierCertificates(SequenceNumber),
}

/// A `WitnessError`, with the view of the message error inside.
pub enum WitnessErrorView {
    MessageError(MessageErrorView),
    UnexpectedSequenceNumber { expected: SequenceNumber, got: SequenceNumber },
    ConflictingNotification { lock_root: Digest, received_root: Digest },
    MissingEarlierCertificates(SequenceNumber),
}

impl View for WitnessError {
    type V = WitnessErrorView;

    open spec fn view(&self) -> WitnessErrorView {
        match self {
            WitnessError::MessageError(e) => WitnessErrorView::MessageError(e@),
            WitnessError::UnexpectedSequenceNumber { expected, got } => {
                WitnessErrorView::UnexpectedSequenceNumber { expected: *expected, got: *got }
            },
            WitnessError::ConflictingNotification { lock_root, received_root } => {
                WitnessErrorView::ConflictingNotification {
                    lock_root: *lock_root,
                    received_root: *received_root,
                }
            },
            WitnessError::MissingEarlierCertificates(current) => {
                WitnessErrorView::MissingEarlierCertificates(*current)
            },
        }
    }
}

impl From<MessageError> for WitnessError {
    fn from(error: MessageError) -> (wrapped: WitnessError) {
        WitnessError::MessageError(error)
    }
}

impl FromSpecImpl<MessageError> for WitnessError {
    open spec fn obeys_from_spec() -> bool {
        true
    }

    open spec fn from_spec(error: MessageError) -> WitnessError {
        WitnessError::MessageError(error)
    }
}

/// Errors of the identity provider's own steps.
#[derive(Debug, Clone, PartialEq, Eq)]
pub enum IdpError {
    /// A message of a witness is at fault.
    MessageError(MessageError),
    /// A witness answered with an error.
    WitnessError(WitnessError),
    /// A vote commits to another root than the one being certified.
    UnexpectedVote { expected: Digest, received: Digest },
    /// A client's request cannot be read.
    InvalidRequest,
    /// A witness answered with a message of the wrong kind, or with bytes
    /// that are no message.
    UnexpectedProtocolMessage,
}

/// An `IdpError`, with the views of the errors inside.
pub enum IdpErrorView {
    MessageError(MessageErrorView),
    WitnessError(WitnessErrorView),
    UnexpectedVote { expected: Digest, received: Digest },
    InvalidRequest,
    UnexpectedProtocolMessage,
}

impl View for IdpError {
    type V = IdpErrorView;

    open spec fn view(&self) -> IdpErrorView {
        match self {
            IdpError::MessageError(e) => IdpErrorView::MessageError(e@),
            IdpError::WitnessError(e) => IdpErrorView::WitnessError(e@),
            IdpError::UnexpectedVote { expected, received } => IdpErrorView::UnexpectedVote {
                expected: *expected,
                received: *received,
            },
            IdpError::InvalidRequest => IdpErrorView::InvalidRequest,
            IdpError::UnexpectedProtocolMessage => IdpErrorView::UnexpectedProtocolMessage,
        }
    }
}

impl From<MessageError> for IdpError {
    fn from(error: MessageError) -> (wrapped: IdpError) {
        IdpError::MessageError(error)
    }
}

impl FromSpecImpl<MessageError> for IdpError {
    open spec fn obeys_from_spec() -> bool {
        true
    }

    open spec fn from_spec(error: MessageError) -> IdpError {
        IdpError::MessageError(error)
    }
}

impl From<WitnessError> for IdpError {
    fn from(error: WitnessError) -> (wrapped: IdpError) {
        IdpError::WitnessError(error)
    }
}

impl FromSpecImpl<WitnessError> for IdpError {
    open spec fn obeys_from_spec() -> bool {
        true
    }

    open spec fn from_spec(error: WitnessError) -> IdpError {
        IdpError::WitnessError(error)
    }
}

} // verus!
