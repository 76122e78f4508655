//! Digests, keys and signatures, and the calls into `ed25519-dalek`.
//!
//! The types here hold plain bytes. What SHA-512 and Ed25519 compute is known
//! to the proofs only by name: a contract that speaks of `sha512_digest` or
//! `ed25519_signature` says which bytes went in, not which came out.

use vstd::prelude::*;
use vstd::std_specs::cmp::PartialEqSpecImpl;

verus! {

/// Whether two byte strings hold the same bytes.
pub fn bytes_equal(a: &[u8], b: &[u8]) -> (same: bool)
    ensures
        same == (a@ == b@),
{
    if a.len() != b.len() {
        return false;
    }
    let mut i: usize = 0;
    while i < a.len()
        invariant
            a@.len() == b@.len(),
            0 <= i <= a@.len(),
            forall|j: int| 0 <= j < i ==> a@[j] == b@[j],
        decreases a@.len() - i,
    {
        if a[i] != b[i] {
            return false;
        }
        i = i + 1;
    }
    assert(a@ =~= b@);
    true
}

/// The order of the dictionary on byte strings of one length: the first
/// position at which they differ decides.
pub open spec fn bytes_before(a: Seq<u8>, b: Seq<u8>) -> bool
    decreases a.len(),
{
    if a.len() == 0 || b.len() == 0 {
        false
    } else if a[0] != b[0] {
        a[0] < b[0]
    } else {
        bytes_before(a.drop_first(), b.drop_first())
    }
}

/// No byte string stands before itself.
pub proof fn lemma_bytes_before_irreflexive(a: Seq<u8>)
    ensures
        !bytes_before(a, a),
    decreases a.len(),
{
    if a.len() > 0 {
        lemma_bytes_before_irreflexive(a.drop_first());
    }
}

/// The order is transitive.
pub proof fn lemma_bytes_before_transitive(a: Seq<u8>, b: Seq<u8>, c: Seq<u8>)
    requires
        bytes_before(a, b),
        bytes_before(b, c),
    ensures
        bytes_before(a, c),
    decreases a.len(),
{
    if a[0] == b[0] && b[0] == c[0] {
        lemma_bytes_before_transitive(a.drop_first(), b.drop_first(), c.drop_first());
    }
}

/// Of two different byte strings of one length, one stands before the other.
pub proof fn lemma_bytes_before_total(a: Seq<u8>, b: Seq<u8>)
    requires
        a.len() == b.len(),
        a != b,
    ensures
        bytes_before(a, b) || bytes_before(b, a),
    decreases a.len(),
{
    if a.len() == 0 {
        assert(a =~= b);
    } else if a[0] == b[0] {
        if a.drop_first() == b.drop_first() {
            assert(a =~= seq![a[0]] + a.drop_first());
            assert(b =~= seq![b[0]] + b.drop_first());
        }
        lemma_bytes_before_total(a.drop_first(), b.drop_first());
    }
}

proof fn lemma_bytes_before_skip(a: Seq<u8>, b: Seq<u8>, i: int)
    requires
        a.len() == b.len(),
        0 <= i < a.len(),
        a[i] == b[i],
    ensures
        bytes_before(a.skip(i), b.skip(i)) == bytes_before(a.skip(i + 1), b.skip(i + 1)),
{
    assert(a.skip(i).drop_first() =~= a.skip(i + 1));
    assert(b.skip(i).drop_first() =~= b.skip(i + 1));
}

/// Whether `a` stands before `b` in the order of the dictionary.
pub fn bytes_less(a: &[u8], b: &[u8]) -> (less: bool)
    requires
        a@.len() == b@.len(),
    ensures
        less == bytes_before(a@, b@),
{
    let mut i: usize = 0;
    assert(a@.skip(0) =~= a@);
    assert(b@.skip(0) =~= b@);
    while i < a.len()
        invariant
            a@.len() == b@.len(),
            0 <= i <= a@.len(),
            bytes_before(a@, b@) == bytes_before(a@.skip(i as int), b@.skip(i as int)),
        decreases a@.len() - i,
    {
        if a[i] != b[i] {
            return a[i] < b[i];
        }
        proof {
            lemma_bytes_before_skip(a@, b@, i as int);
        }
        i = i + 1;
    }
    false
}

/// A 32-byte hash value.
#[derive(Clone, Copy, Debug)]
pub struct Digest(pub [u8; 32]);

impl View for Digest {
    type V = Seq<u8>;

    open spec fn view(&self) -> Seq<u8> {
        self.0@
    }
}

impl PartialEq for Digest {
    fn eq(&self, other: &Digest) -> (same: bool) {
        bytes_equal(&self.0, &other.0)
    }
}

impl Eq for Digest {

}

impl PartialEqSpecImpl for Digest {
    open spec fn obeys_eq_spec() -> bool {
        true
    }

    open spec fn eq_spec(&self, other: &Digest) -> bool {
        self@ == other@
    }
}

/// Two digests are the same value exactly if they hold the same bytes.
pub proof fn lemma_digest_bytes(a: Digest, b: Digest)
    ensures
        (a@ == b@) == (a == b),
{
    if a@ == b@ {
        assert(a.0 =~= b.0);
    }
}

/// Two signatures are the same value exactly if they hold the same bytes.
pub proof fn lemma_signature_bytes(a: Signature, b: Signature)
    ensures
        (a@ == b@) == (a == b),
{
    if a@ == b@ {
        assert(a.0 =~= b.0);
    }
}

/// Two keys are the same value exactly if they hold the same bytes.
pub proof fn lemma_public_key_bytes(a: PublicKey, b: PublicKey)
    ensures
        (a@ == b@) == (a == b),
{
    if a@ == b@ {
        assert(a.0 =~= b.0);
    }
}

/// The digest whose 32 bytes are all zero.
pub open spec fn zero_digest() -> Digest {
    Digest(vstd::array::spec_array_fill_for_copy_type::<u8, 32>(0u8))
}

impl Default for Digest {
    fn default() -> (zero: Digest)
        ensures
            zero == zero_digest(),
            zero@ == Seq::new(32, |i: int| 0u8),
    {
        let zero = Digest([0u8; 32]);
        assert(zero@ =~= Seq::new(32, |i: int| 0u8));
        zero
    }
}

/// The public key of a witness or of the identity provider: 32 bytes.
#[derive(Clone, Copy, Debug)]
pub struct PublicKey(pub [u8; 32]);

impl View for PublicKey {
    type V = Seq<u8>;

    open spec fn view(&self) -> Seq<u8> {
        self.0@
    }
}

impl PartialEq for PublicKey {
    fn eq(&self, other: &PublicKey) -> (same: bool) {
        bytes_equal(&self.0, &other.0)
    }
}

impl Eq for PublicKey {

}

impl PartialEqSpecImpl for PublicKey {
    open spec fn obeys_eq_spec() -> bool {
        true
    }

    open spec fn eq_spec(&self, other: &PublicKey) -> bool {
        self@ == other@
    }
}

impl Default for PublicKey {
    fn default() -> (zero: PublicKey)
        ensures
            zero@ == Seq::new(32, |i: int| 0u8),
    {
        let zero = PublicKey([0u8; 32]);
        assert(zero@ =~= Seq::new(32, |i: int| 0u8));
        zero
    }
}

impl PublicKey {
    /// Whether this key sorts before `other`.
    pub fn sorts_before(&self, other: &PublicKey) -> (before: bool)
        ensures
            before == bytes_before(self@, other@),
    {
        bytes_less(&self.0, &other.0)
    }
}

/// An Ed25519 signature: 64 bytes.
#[derive(Clone, Copy, Debug)]
pub struct Signature(pub [u8; 64]);

impl View for Signature {
    type V = Seq<u8>;

    open spec fn view(&self) -> Seq<u8> {
        self.0@
    }
}

impl PartialEq for Signature {
    fn eq(&self, other: &Signature) -> (same: bool) {
        bytes_equal(&self.0, &other.0)
    }
}

impl Eq for Signature {

}

impl PartialEqSpecImpl for Signature {
    open spec fn obeys_eq_spec() -> bool {
        true
    }

    open spec fn eq_spec(&self, other: &Signature) -> bool {
        self@ == other@
    }
}

impl Default for Signature {
    fn default() -> (zero: Signature)
        ensures
            zero@ == Seq::new(64, |i: int| 0u8),
    {
        let zero = Signature([0u8; 64]);
        assert(zero@ =~= Seq::new(64, |i: int| 0u8));
        zero
    }
}

/// What SHA-512 makes of a byte string: 64 bytes.
pub uninterp spec fn sha512_digest(data: Seq<u8>) -> Seq<u8>;

/// The Ed25519 public key that belongs to a 32-byte secret seed.
pub uninterp spec fn ed25519_public_key(seed: Seq<u8>) -> Seq<u8>;

/// The Ed25519 signature that a 32-byte secret seed makes over a message.
pub uninterp spec fn ed25519_signature(seed: Seq<u8>, message: Seq<u8>) -> Seq<u8>;

/// Why strict Ed25519 verification turns a signature down, as the text of
/// the error; `None` where it accepts the signature.
pub uninterp spec fn ed25519_rejection(
    public_key: Seq<u8>,
    message: Seq<u8>,
    signature: Seq<u8>,
) -> Option<Seq<char>>;

/// Calls `Digest::digest` of the `Sha512` hasher that `ed25519-dalek` hands
/// on. Claimed: the 64 bytes that come back are the SHA-512 hash of `data`,
/// and depend on `data` alone.
#[verifier::external_body]
fn sha512(data: &[u8]) -> (out: [u8; 64])
    ensures
        out@ == sha512_digest(data@),
{
    let mut out = [0u8; 64];
    out.copy_from_slice(&<ed25519_dalek::Sha512 as ed25519_dalek::Digest>::digest(data)[..]);
    out
}

/// Calls `PublicKey::from(&SecretKey)` of `ed25519-dalek`. Claimed: the key
/// that comes back depends on the seed alone. A seed of 32 bytes is always
/// taken.
#[verifier::external_body]
fn derive_public_key(seed: &[u8; 32]) -> (key: [u8; 32])
    ensures
        key@ == ed25519_public_key(seed@),
{
    let secret = ed25519_dalek::SecretKey::from_bytes(&seed[..]).unwrap();
    ed25519_dalek::PublicKey::from(&secret).to_bytes()
}

/// Calls `ExpandedSecretKey::sign` of `ed25519-dalek` with the key pair
/// that belongs to `seed`. Claimed: signing is deterministic, so the 64
/// bytes depend on the seed and the message alone.
#[verifier::external_body]
fn sign_message(seed: &[u8; 32], message: &[u8]) -> (signature: [u8; 64])
    ensures
        signature@ == ed25519_signature(seed@, message@),
{
    let secret = ed25519_dalek::SecretKey::from_bytes(&seed[..]).unwrap();
    let public = ed25519_dalek::PublicKey::from(&secret);
    ed25519_dalek::ExpandedSecretKey::from(&secret).sign(message, &public).to_bytes()
}

/// Calls `PublicKey::verify_strict` of `ed25519-dalek`, after
/// `PublicKey::from_bytes` and `Signature::from_bytes`. Claimed: whether the
/// three accept, and the text of the error where one does not, depend on the
/// key, the message and the signature alone.
#[verifier::external_body]
fn verify_strict(public_key: &[u8; 32], message: &[u8], signature: &[u8; 64]) -> (verdict: Result<
    (),
    String,
>)
    ensures
        verdict is Ok <==> ed25519_rejection(public_key@, message@, signature@) is None,
        verdict matches Err(text) ==> ed25519_rejection(public_key@, message@, signature@) == Some(
            text@,
        ),
{
    let key = match ed25519_dalek::PublicKey::from_bytes(&public_key[..]) {
        Ok(key) => key,
        Err(e) => return Err(e.to_string()),
    };
    match ed25519_dalek::Signature::from_bytes(&signature[..]) {
        Ok(signature) => key.verify_strict(message, &signature).map_err(|e| e.to_string()),
        Err(e) => Err(e.to_string()),
    }
}

/// Calls `verify_batch` of `ed25519-dalek` on one message and the given keys and signatures,
/// after `from_bytes` of each. The test draws random numbers. Claimed is only what comes
/// before it: `Signature::from_bytes` turns down a last byte with one of its high bits set.
#[verifier::external_body]
fn verify_batch(message: &[u8], votes: &Vec<(PublicKey, Signature)>) -> (verdict: Result<(), String>)
    ensures
        !high_bits_clear(votes@) ==> verdict is Err,
{
    let mut messages: Vec<&[u8]> = Vec::new();
    let mut signatures: Vec<ed25519_dalek::Signature> = Vec::new();
    let mut keys: Vec<ed25519_dalek::PublicKey> = Vec::new();
    for (key, signature) in votes.iter() {
        messages.push(message);
        signatures.push(
            ed25519_dalek::Signature::from_bytes(&signature.0[..]).map_err(|e| e.to_string())?,
        );
        keys.push(ed25519_dalek::PublicKey::from_bytes(&key.0[..]).map_err(|e| e.to_string())?);
    }
    ed25519_dalek::verify_batch(&messages[..], &signatures[..], &keys[..]).map_err(
        |e| e.to_string(),
    )
}

/// The first 32 bytes of the SHA-512 hash of `data`.
pub open spec fn hash_of(data: Seq<u8>) -> Seq<u8> {
    sha512_digest(data).subrange(0, 32)
}

impl Digest {
    /// Hashes `data` with SHA-512 and keeps the first 32 bytes.
    pub fn hash(data: &[u8]) -> (digest: Digest)
        ensures
            digest@ == hash_of(data@),
    {
        let full = sha512(data);
        let mut out = [0u8; 32];
        let mut i: usize = 0;
        while i < 32
            invariant
                0 <= i <= 32,
                forall|j: int| 0 <= j < i ==> out@[j] == full@[j],
            decreases 32 - i,
        {
            out[i] = full[i];
            i = i + 1;
        }
        assert(out@ =~= full@.subrange(0, 32));
        Digest(out)
    }
}

/// A witness's or the identity provider's signing key with its public key.
/// It has no `Debug`, so that the seed does not find its way into a log.
pub struct KeyPair {
    name: PublicKey,
    seed: [u8; 32],
}

impl Clone for KeyPair {
    fn clone(&self) -> (copy: KeyPair)
        ensures
            copy == *self,
    {
        proof {
            use_type_invariant(self);
        }
        KeyPair { name: self.name, seed: self.seed }
    }
}

impl KeyPair {
    /// The public key.
    pub closed spec fn spec_public(&self) -> PublicKey {
        self.name
    }

    /// The secret seed.
    pub closed spec fn spec_seed(&self) -> Seq<u8> {
        self.seed@
    }

    /// The public key is the one that belongs to the seed.
    #[verifier::type_invariant]
    pub closed spec fn well_formed(&self) -> bool {
        self.name@ == ed25519_public_key(self.seed@)
    }

    /// The key pair of a 32-byte secret seed.
    pub fn from_seed(seed: [u8; 32]) -> (pair: KeyPair)
        ensures
            pair.spec_seed() == seed@,
            pair.spec_public()@ == ed25519_public_key(seed@),
    {
        let name = PublicKey(derive_public_key(&seed));
        KeyPair { name, seed }
    }

    /// The public key.
    #[verifier::when_used_as_spec(spec_public)]
    pub fn public(&self) -> (name: PublicKey)
        ensures
            name == self.spec_public(),
            name@ == ed25519_public_key(self.spec_seed()),
    {
        proof {
            use_type_invariant(self);
        }
        self.name
    }

    /// The secret seed.
    pub fn seed(&self) -> (seed: [u8; 32])
        ensures
            seed@ == self.spec_seed(),
    {
        self.seed
    }
}

impl Signature {
    /// Signs `digest` with `keypair`.
    pub fn new(digest: &Digest, keypair: &KeyPair) -> (signature: Signature)
        ensures
            signature@ == ed25519_signature(keypair.spec_seed(), digest@),
    {
        Signature(sign_message(&keypair.seed, &digest.0))
    }

    /// Checks this signature over `digest` against `public_key`, strictly.
    pub fn verify(&self, digest: &Digest, public_key: &PublicKey) -> (verdict: Result<(), String>)
        ensures
            verdict is Ok <==> ed25519_rejection(public_key@, digest@, self@) is None,
            verdict matches Err(text) ==> ed25519_rejection(public_key@, digest@, self@) == Some(
                text@,
            ),
    {
        verify_strict(&public_key.0, &digest.0, &self.0)
    }

    /// Checks in one batch the signatures of `votes`, each against the key
    /// beside it, over `digest`. The batch test is randomised, and owes no
    /// verdict but one: a signature that cannot be read makes it an error.
    pub fn verify_batch(digest: &Digest, votes: &Vec<(PublicKey, Signature)>) -> (verdict: Result<
        (),
        String,
    >)
        ensures
            !high_bits_clear(votes@) ==> verdict is Err,
    {
        verify_batch(&digest.0, votes)
    }
}

/// Whether every signature of `votes` has the three high bits of its last
/// byte clear. The signature scheme reads no other signature: what such
/// bytes hold is more than any signature's second half can be.
pub open spec fn high_bits_clear(votes: Seq<(PublicKey, Signature)>) -> bool {
    forall|i: int| 0 <= i < votes.len() ==> (#[trigger] votes[i]).1@[63] < 32
}

} // verus!
