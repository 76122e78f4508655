//! Key-transparency publish/witness protocol: the identity provider's
//! publish pipeline, the witnesses' safety state machine and the messages
//! that bind them.
//!
//! The identity provider gathers clients' updates into batches
//! ([`batcher`]), numbers and signs the state that each batch leads to
//! ([`prover`]), broadcasts the notification and gathers the witnesses'
//! votes into a certificate ([`publisher`], [`aggregator`]). A witness votes
//! for one root at each sequence number and moves on when a certificate
//! comes ([`witness`], [`dispatch`]). Messages, their verification and their
//! wire format are in [`publish`], [`message`], [`codec`] and [`wire`]; what
//! is kept in the stores is in [`storage`].
//!
//! Nothing here reads a socket, a file or a clock: every step takes what
//! came in and gives back the answer together with what is to be written
//! first. Hashing and signatures are the work of `ed25519-dalek`, behind the
//! few functions of [`crypto`] whose contracts are taken on trust.

pub mod aggregator;
pub mod batcher;
pub mod codec;
pub mod committee;
pub mod crypto;
pub mod dispatch;
pub mod error;
pub mod generator;
pub mod message;
pub mod prover;
pub mod publish;
pub mod publisher;
pub mod storage;
pub mod sync;
pub mod synchronizer;
pub mod wire;
pub mod witness;
