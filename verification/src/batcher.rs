//! The batcher: it reads clients' requests and gathers them into batches,
//! sealed when full or when the timer fires.

use crate::error::{IdpError, IdpResult};
use vstd::prelude::*;
use vstd::slice::slice_subrange;
use vstd::utf8::{decode_utf8, valid_utf8};

verus! {

/// A client's request: a label and the value to publish under it.
pub type Request = (String, String);

/// A batch of requests, in the order in which they came.
pub type Batch = Vec<Request>;

/// A request as two sequences of characters.
pub type RequestView = (Seq<char>, Seq<char>);

/// The text that lossy UTF-8 decoding makes of bytes: what is not UTF-8
/// becomes the replacement character.
pub uninterp spec fn utf8_lossy_text(bytes: Seq<u8>) -> Seq<char>;

/// Calls `String::from_utf8_lossy` of std. Claimed: the text depends on the
/// bytes alone, and by the function's documentation valid UTF-8 is decoded
/// as it stands.
#[verifier::external_body]
fn lossy_text(bytes: &[u8]) -> (text: String)
    ensures
        text@ == utf8_lossy_text(bytes@),
        valid_utf8(bytes@) ==> text@ == decode_utf8(bytes@),
{
    String::from_utf8_lossy(bytes).into_owned()
}

/// The requests of a batch, each as two sequences of characters.
pub open spec fn batch_view(batch: Seq<Request>) -> Seq<RequestView> {
    Seq::new(batch.len(), |i: int| (batch[i].0@, batch[i].1@))
}

/// Where a request is cut in two: in the middle, the second half the longer
/// one where the length is odd. A request of fewer than two bytes has no
/// halves.
pub open spec fn request_halves(bytes: Seq<u8>) -> Option<(Seq<u8>, Seq<u8>)> {
    if bytes.len() < 2 {
        None
    } else {
        Some(
            (
                bytes.subrange(0, bytes.len() as int / 2),
                bytes.subrange(bytes.len() as int / 2, bytes.len() as int),
            ),
        )
    }
}

/// The text that a half of a request holds: the characters that its bytes
/// encode where they are UTF-8, and else what lossy decoding makes of them.
pub open spec fn text_of(bytes: Seq<u8>) -> Seq<char> {
    if valid_utf8(bytes) {
        decode_utf8(bytes)
    } else {
        utf8_lossy_text(bytes)
    }
}

/// The request that bytes hold: label and value are the text of their two
/// halves.
pub open spec fn decoded_request(bytes: Seq<u8>) -> Option<RequestView> {
    match request_halves(bytes) {
        Some((label, value)) => Some((text_of(label), text_of(value))),
        None => None,
    }
}

/// Cuts a request in two halves.
pub fn split_request(bytes: &[u8]) -> (halves: IdpResult<(&[u8], &[u8])>)
    ensures
        match request_halves(bytes@) {
            Some((label, value)) => halves matches Ok((first, second)) && first@ == label
                && second@ == value,
            None => halves matches Err(IdpError::InvalidRequest),
        },
{
    let length = bytes.len();
    if length < 2 {
        return Err(IdpError::InvalidRequest);
    }
    let middle = length / 2;
    Ok((slice_subrange(bytes, 0, middle), slice_subrange(bytes, middle, length)))
}

/// What a batcher holds, as plain values.
pub struct BatcherView {
    pub batch_size: usize,
    pub max_batch_delay: u64,
    pub current: Seq<RequestView>,
}

/// What a batcher holds after a request, and the batch that it seals, if
/// it seals one. A request that cannot be read changes nothing. Any other
/// joins the current batch, which is sealed once it holds `batch_size`
/// requests.
pub open spec fn after_request(batcher: BatcherView, bytes: Seq<u8>) -> (
    BatcherView,
    Option<Seq<RequestView>>,
) {
    match decoded_request(bytes) {
        None => (batcher, None),
        Some(request) => {
            let grown = batcher.current.push(request);
            if grown.len() >= batcher.batch_size {
                (
                    BatcherView {
                        batch_size: batcher.batch_size,
                        max_batch_delay: batcher.max_batch_delay,
                        current: Seq::empty(),
                    },
                    Some(grown),
                )
            } else {
                (
                    BatcherView {
                        batch_size: batcher.batch_size,
                        max_batch_delay: batcher.max_batch_delay,
                        current: grown,
                    },
                    None,
                )
            }
        },
    }
}

/// What a batcher holds after the timer has fired, and the batch that it
/// seals: the current one, unless it is empty.
pub open spec fn after_timer(batcher: BatcherView) -> (BatcherView, Option<Seq<RequestView>>) {
    if batcher.current.len() > 0 {
        (
            BatcherView {
                batch_size: batcher.batch_size,
                max_batch_delay: batcher.max_batch_delay,
                current: Seq::empty(),
            },
            Some(batcher.current),
        )
    } else {
        (batcher, None)
    }
}

/// Whether an optional batch is the one that `sealed` says.
pub open spec fn seals(batch: Option<Batch>, sealed: Option<Seq<RequestView>>) -> bool {
    match (batch, sealed) {
        (Some(made), Some(due)) => batch_view(made@) == due,
        (None, None) => true,
        _ => false,
    }
}

/// Gathers clients' requests into batches.
pub struct Batcher {
    batch_size: usize,
    max_batch_delay: u64,
    current_batch: Batch,
}

impl View for Batcher {
    type V = BatcherView;

    closed spec fn view(&self) -> BatcherView {
        BatcherView {
            batch_size: self.batch_size,
            max_batch_delay: self.max_batch_delay,
            current: batch_view(self.current_batch@),
        }
    }
}

impl Batcher {
    /// A batcher with an empty batch. It seals a batch of `batch_size`
    /// requests, or what it has when the timer fires after
    /// `max_batch_delay` milliseconds.
    pub fn new(batch_size: usize, max_batch_delay: u64) -> (batcher: Batcher)
        ensures
            batcher@ == (BatcherView { batch_size, max_batch_delay, current: Seq::empty() }),
    {
        let batcher = Batcher { batch_size, max_batch_delay, current_batch: Vec::new() };
        assert(batch_view(batcher.current_batch@) =~= Seq::empty());
        batcher
    }

    /// The delay, in milliseconds, after which the timer fires.
    pub fn max_batch_delay(&self) -> (delay: u64)
        ensures
            delay == self@.max_batch_delay,
    {
        self.max_batch_delay
    }

    /// Reads a client's request.
    pub fn deserialize(bytes: &[u8]) -> (request: IdpResult<Request>)
        ensures
            match decoded_request(bytes@) {
                Some(decoded) => request matches Ok(read) && (read.0@, read.1@) == decoded,
                None => request matches Err(IdpError::InvalidRequest),
            },
    {
        match split_request(bytes) {
            Ok((label, value)) => Ok((lossy_text(label), lossy_text(value))),
            Err(error) => Err(error),
        }
    }

    /// Seals the current batch, and starts an empty one.
    pub fn seal(&mut self) -> (batch: Batch)
        ensures
            batch_view(batch@) == old(self)@.current,
            final(self)@ == (BatcherView {
                batch_size: old(self)@.batch_size,
                max_batch_delay: old(self)@.max_batch_delay,
                current: Seq::empty(),
            }),
    {
        let mut batch: Batch = Vec::new();
        std::mem::swap(&mut self.current_batch, &mut batch);
        assert(batch_view(self.current_batch@) =~= Seq::empty());
        batch
    }

    /// Takes in a request. Where this fills the batch, the result is the
    /// sealed batch, and the timer is to start anew.
    pub fn on_request(&mut self, bytes: &[u8]) -> (sealed: Option<Batch>)
        ensures
            final(self)@ == after_request(old(self)@, bytes@).0,
            seals(sealed, after_request(old(self)@, bytes@).1),
    {
        let request = match Batcher::deserialize(bytes) {
            Ok(request) => request,
            Err(_) => {
                return None;
            },
        };
        let ghost before = self.current_batch@;
        let ghost added = (request.0@, request.1@);
        self.current_batch.push(request);
        assert(batch_view(self.current_batch@) =~= batch_view(before).push(added));
        if self.current_batch.len() >= self.batch_size {
            Some(self.seal())
        } else {
            None
        }
    }

    /// The timer has fired: the result is the sealed batch, unless there is
    /// nothing to seal. The timer is to start anew either way.
    pub fn on_timer(&mut self) -> (sealed: Option<Batch>)
        ensures
            final(self)@ == after_timer(old(self)@).0,
            seals(sealed, after_timer(old(self)@).1),
    {
        if self.current_batch.len() > 0 {
            Some(self.seal())
        } else {
            None
        }
    }
}

} // verus!
