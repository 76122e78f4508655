//! The building blocks of the wire format: integers with the low byte
//! first, byte fields of fixed length, four-byte tags, and byte strings and
//! text behind an eight-byte length.
//!
//! Each block has its bytes (a spec function), a parser on sequences of
//! bytes (a spec function that gives the value and how many bytes it took),
//! a writer and a reader (executable), and a lemma that parsing the bytes of
//! a value gives the value back, whatever follows them.

use crate::crypto::{
    lemma_digest_bytes, lemma_public_key_bytes, lemma_signature_bytes, Digest, PublicKey, Signature,
};
use vstd::bytes::{
    lemma_auto_spec_u64_to_from_le_bytes, spec_u64_from_le_bytes, spec_u64_to_le_bytes,
    u64_from_le_bytes, u64_to_le_bytes,
};
use vstd::prelude::*;
use vstd::slice::{slice_subrange, slice_to_vec};
use vstd::utf8::{decode_utf8, encode_utf8, encode_utf8_decode_utf8, encode_utf8_valid_utf8, valid_utf8};

verus! {

/// Appends `bytes` to `out`.
pub fn put(out: &mut Vec<u8>, bytes: &[u8])
    ensures
        final(out)@ == old(out)@ + bytes@,
{
    let mut copy = slice_to_vec(bytes);
    out.append(&mut copy);
}

/// The bytes of a number: eight, the low byte first.
pub open spec fn number_bytes(number: u64) -> Seq<u8> {
    spec_u64_to_le_bytes(number)
}

/// Reads a number from the start of `bytes`.
pub open spec fn parse_number(bytes: Seq<u8>) -> Option<(u64, int)> {
    if bytes.len() >= 8 {
        Some((spec_u64_from_le_bytes(bytes.subrange(0, 8)), 8))
    } else {
        None
    }
}

/// A number is eight bytes, and reads back as itself.
pub proof fn lemma_number_round_trip(number: u64, rest: Seq<u8>)
    ensures
        number_bytes(number).len() == 8,
        parse_number(number_bytes(number) + rest) == Some((number, 8int)),
{
    lemma_auto_spec_u64_to_from_le_bytes();
    assert((number_bytes(number) + rest).subrange(0, 8) =~= number_bytes(number));
}

/// Appends a number.
pub fn put_number(out: &mut Vec<u8>, number: u64)
    ensures
        final(out)@ == old(out)@ + number_bytes(number),
{
    let mut bytes = u64_to_le_bytes(number);
    out.append(&mut bytes);
}

/// Reads a number at `at`. The result holds the position behind it.
pub fn read_number(bytes: &[u8], at: usize) -> (read: Option<(u64, usize)>)
    requires
        at <= bytes@.len(),
    ensures
        match parse_number(bytes@.skip(at as int)) {
            Some((number, taken)) => read == Some((number, (at + taken) as usize)) && at + taken
                <= bytes@.len(),
            None => read is None,
        },
{
    if bytes.len() - at < 8 {
        return None;
    }
    let field = slice_subrange(bytes, at, at + 8);
    assert(field@ =~= bytes@.skip(at as int).subrange(0, 8));
    Some((u64_from_le_bytes(field), at + 8))
}

/// The digest that holds `bytes`.
pub open spec fn digest_from(bytes: Seq<u8>) -> Digest {
    choose|digest: Digest| digest@ == bytes
}

/// The public key that holds `bytes`.
pub open spec fn key_from(bytes: Seq<u8>) -> PublicKey {
    choose|key: PublicKey| key@ == bytes
}

/// The signature that holds `bytes`.
pub open spec fn signature_from(bytes: Seq<u8>) -> Signature {
    choose|signature: Signature| signature@ == bytes
}

/// A digest is the digest that holds its bytes.
pub proof fn lemma_digest_from(digest: Digest)
    ensures
        digest_from(digest@) == digest,
        digest@.len() == 32,
{
    lemma_digest_bytes(digest_from(digest@), digest);
}

/// A key is the key that holds its bytes.
pub proof fn lemma_key_from(key: PublicKey)
    ensures
        key_from(key@) == key,
        key@.len() == 32,
{
    lemma_public_key_bytes(key_from(key@), key);
}

/// A signature is the signature that holds its bytes.
pub proof fn lemma_signature_from(signature: Signature)
    ensures
        signature_from(signature@) == signature,
        signature@.len() == 64,
{
    lemma_signature_bytes(signature_from(signature@), signature);
}

/// Copies the 32 bytes at `at`.
pub fn read_32(bytes: &[u8], at: usize) -> (field: [u8; 32])
    requires
        at + 32 <= bytes@.len(),
    ensures
        field@ == bytes@.subrange(at as int, at + 32),
{
    let mut field = [0u8; 32];
    let length = bytes.len();
    let mut i: usize = 0;
    while i < 32
        invariant
            0 <= i <= 32,
            at + 32 <= length == bytes@.len(),
            forall|j: int| 0 <= j < i ==> field@[j] == bytes@[at + j],
        decreases 32 - i,
    {
        field[i] = bytes[at + i];
        i = i + 1;
    }
    assert(field@ =~= bytes@.subrange(at as int, at + 32));
    field
}

/// Copies the 64 bytes at `at`.
pub fn read_64(bytes: &[u8], at: usize) -> (field: [u8; 64])
    requires
        at + 64 <= bytes@.len(),
    ensures
        field@ == bytes@.subrange(at as int, at + 64),
{
    let mut field = [0u8; 64];
    let length = bytes.len();
    let mut i: usize = 0;
    while i < 64
        invariant
            0 <= i <= 64,
            at + 64 <= length == bytes@.len(),
            forall|j: int| 0 <= j < i ==> field@[j] == bytes@[at + j],
        decreases 64 - i,
    {
        field[i] = bytes[at + i];
        i = i + 1;
    }
    assert(field@ =~= bytes@.subrange(at as int, at + 64));
    field
}

/// The bytes of a tag: the tag, then three zero bytes. This is a 32-bit
/// number below 256, the low byte first.
pub open spec fn tag_bytes(tag: u8) -> Seq<u8> {
    seq![tag, 0u8, 0u8, 0u8]
}

/// Reads a tag from the start of `bytes`: four bytes, the last three zero.
pub open spec fn parse_tag(bytes: Seq<u8>) -> Option<u8> {
    if bytes.len() >= 4 && bytes[1] == 0 && bytes[2] == 0 && bytes[3] == 0 {
        Some(bytes[0])
    } else {
        None
    }
}

/// A tag is four bytes, and reads back as itself.
pub proof fn lemma_tag_round_trip(tag: u8, rest: Seq<u8>)
    ensures
        tag_bytes(tag).len() == 4,
        parse_tag(tag_bytes(tag) + rest) == Some(tag),
        (tag_bytes(tag) + rest).skip(4) == rest,
{
    assert((tag_bytes(tag) + rest).skip(4) =~= rest);
}

/// Appends a tag.
pub fn put_tag(out: &mut Vec<u8>, tag: u8)
    ensures
        final(out)@ == old(out)@ + tag_bytes(tag),
{
    out.push(tag);
    out.push(0);
    out.push(0);
    out.push(0);
    assert(out@ =~= old(out)@ + tag_bytes(tag));
}

/// Reads a tag at `at`. It takes four bytes.
pub fn read_tag(bytes: &[u8], at: usize) -> (tag: Option<u8>)
    requires
        at <= bytes@.len(),
    ensures
        tag == parse_tag(bytes@.skip(at as int)),
        tag is Some ==> at + 4 <= bytes@.len() <= usize::MAX,
{
    if bytes.len() - at < 4 {
        return None;
    }
    if bytes[at + 1] != 0 || bytes[at + 2] != 0 || bytes[at + 3] != 0 {
        return None;
    }
    Some(bytes[at])
}

/// The bytes of a byte string: its length as a number, then the bytes.
pub open spec fn blob_bytes(blob: Seq<u8>) -> Seq<u8> {
    number_bytes(blob.len() as u64) + blob
}

/// Reads a byte string from the start of `bytes`.
pub open spec fn parse_blob(bytes: Seq<u8>) -> Option<(Seq<u8>, int)> {
    match parse_number(bytes) {
        Some((length, _)) => if length <= bytes.len() - 8 {
            Some((bytes.subrange(8, 8 + length), 8 + length))
        } else {
            None
        },
        None => None,
    }
}

/// A byte string reads back as itself.
pub proof fn lemma_blob_round_trip(blob: Seq<u8>, rest: Seq<u8>)
    requires
        blob.len() <= u64::MAX,
    ensures
        blob_bytes(blob).len() == 8 + blob.len(),
        parse_blob(blob_bytes(blob) + rest) == Some((blob, 8 + blob.len() as int)),
{
    let length = blob.len() as u64;
    lemma_number_round_trip(length, blob + rest);
    assert(blob_bytes(blob) + rest =~= number_bytes(length) + (blob + rest));
    assert((blob_bytes(blob) + rest).subrange(8, 8 + length) =~= blob);
}

/// Appends a byte string.
pub fn put_blob(out: &mut Vec<u8>, blob: &[u8])
    ensures
        final(out)@ == old(out)@ + blob_bytes(blob@),
{
    put_number(out, blob.len() as u64);
    put(out, blob);
    assert(out@ =~= old(out)@ + blob_bytes(blob@));
}

/// Reads a byte string at `at`. The result holds the position behind it.
pub fn read_blob(bytes: &[u8], at: usize) -> (read: Option<(Vec<u8>, usize)>)
    requires
        at <= bytes@.len(),
    ensures
        match parse_blob(bytes@.skip(at as int)) {
            Some((blob, taken)) => read matches Some((found, end)) && found@ == blob && end == at
                + taken && end <= bytes@.len(),
            None => read is None,
        },
{
    let (length, start) = match read_number(bytes, at) {
        Some(read) => read,
        None => {
            return None;
        },
    };
    if length > (bytes.len() - start) as u64 {
        return None;
    }
    let end = start + length as usize;
    let field = slice_subrange(bytes, start, end);
    assert(field@ =~= bytes@.skip(at as int).subrange(8, 8 + length));
    Some((slice_to_vec(field), end))
}

/// The bytes of a text: its UTF-8 form as a byte string.
pub open spec fn text_bytes(text: Seq<char>) -> Seq<u8> {
    blob_bytes(encode_utf8(text))
}

/// Reads a text from the start of `bytes`: a byte string that is UTF-8.
pub open spec fn parse_text(bytes: Seq<u8>) -> Option<(Seq<char>, int)> {
    match parse_blob(bytes) {
        Some((blob, taken)) => if valid_utf8(blob) {
            Some((decode_utf8(blob), taken))
        } else {
            None
        },
        None => None,
    }
}

/// A text reads back as itself.
pub proof fn lemma_text_round_trip(text: Seq<char>, rest: Seq<u8>)
    requires
        encode_utf8(text).len() <= u64::MAX,
    ensures
        text_bytes(text).len() == 8 + encode_utf8(text).len(),
        parse_text(text_bytes(text) + rest) == Some((text, 8 + encode_utf8(text).len() as int)),
{
    lemma_blob_round_trip(encode_utf8(text), rest);
    encode_utf8_valid_utf8(text);
    encode_utf8_decode_utf8(text);
}

/// Calls `String::from_utf8` of std. By its documentation the bytes become
/// a `String` exactly if they are valid UTF-8, and the `String` then holds
/// the characters that they encode.
#[verifier::external_body]
fn text_from_utf8(bytes: Vec<u8>) -> (text: Option<String>)
    ensures
        text is Some <==> valid_utf8(bytes@),
        text matches Some(found) ==> found@ == decode_utf8(bytes@),
{
    match String::from_utf8(bytes) {
        Ok(text) => Some(text),
        Err(_) => None,
    }
}

/// Appends a text.
pub fn put_text(out: &mut Vec<u8>, text: &String)
    ensures
        final(out)@ == old(out)@ + text_bytes(text@),
{
    put_blob(out, text.as_str().as_bytes());
}

/// Reads a text at `at`. The result holds the position behind it.
pub fn read_text(bytes: &[u8], at: usize) -> (read: Option<(String, usize)>)
    requires
        at <= bytes@.len(),
    ensures
        match parse_text(bytes@.skip(at as int)) {
            Some((text, taken)) => read matches Some((found, end)) && found@ == text && end == at
                + taken && end <= bytes@.len(),
            None => read is None,
        },
{
    let (blob, end) = match read_blob(bytes, at) {
        Some(read) => read,
        None => {
            return None;
        },
    };
    match text_from_utf8(blob) {
        Some(text) => Some((text, end)),
        None => None,
    }
}

} // verus!
