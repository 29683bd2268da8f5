//! Content fingerprints: SHA-256 digests in lowercase hexadecimal.

use crate::codec::{json_text, render};
use crate::json::{Json, JsonValue};
use vstd::prelude::*;
use vstd::string::StringExecFns;

verus! {

/// The SHA-256 digest of a byte sequence.
pub uninterp spec fn sha256_digest(data: Seq<u8>) -> Seq<u8>;

/// `Sha256::digest` of the crate `sha2`: the 32 bytes of the SHA-256
/// digest of the data.
#[verifier::external_body]
fn sha256(data: &[u8]) -> (out: Vec<u8>)
    ensures
        out@ == sha256_digest(data@),
        out@.len() == 32,
{
    <sha2::Sha256 as sha2::Digest>::digest(data).to_vec()
}

/// The lowercase hexadecimal digit for a value below sixteen.
pub open spec fn hex_digit(n: int) -> char {
    if n < 10 {
        (48 + n) as char
    } else {
        (87 + n) as char
    }
}

/// The lowercase hexadecimal text of a byte sequence: two digits for each
/// byte, the high half first.
pub open spec fn hex_text(bytes: Seq<u8>) -> Seq<char> {
    Seq::new(
        2 * bytes.len(),
        |i: int|
            if i % 2 == 0 {
                hex_digit(bytes[i / 2] as int / 16)
            } else {
                hex_digit(bytes[i / 2] as int % 16)
            },
    )
}

/// `hex::encode`: the lowercase hexadecimal text of the data, two digits
/// for each byte.
#[verifier::external_body]
fn hex_encode(data: &[u8]) -> (out: String)
    ensures
        out@ == hex_text(data@),
{
    hex::encode(data)
}

/// The fingerprint of a text: the SHA-256 digest of its UTF-8 bytes, in
/// lowercase hexadecimal.
pub open spec fn fingerprint(text: Seq<char>) -> Seq<char> {
    hex_text(sha256_digest(vstd::utf8::encode_utf8(text)))
}

/// The fingerprint of `text`.
pub fn fingerprint_of(text: &str) -> (out: String)
    ensures
        out@ == fingerprint(text@),
        out@.len() == 64,
{
    let digest = sha256(text.as_bytes());
    hex_encode(digest.as_slice())
}

/// The canonical text of a search message: its compact JSON text.
pub open spec fn canonical(message: JsonValue) -> Seq<char> {
    json_text(message)
}

/// The fingerprint that identifies a search message.
pub open spec fn query_hash(message: JsonValue) -> Seq<char> {
    fingerprint(canonical(message))
}

/// The fingerprint that identifies the search message `message`.
pub fn generate_query_hash(message: &Json) -> (out: String)
    ensures
        out@ == query_hash(message@),
        out@.len() == 64,
{
    let text = render(message);
    fingerprint_of(text.as_str())
}

/// Messages with the same canonical text have the same query hash.
pub proof fn lemma_query_hash_stable(m1: JsonValue, m2: JsonValue)
    requires
        canonical(m1) == canonical(m2),
    ensures
        query_hash(m1) == query_hash(m2),
{
}

/// The content hash of a job: the fingerprint of the item's JSON text.
pub open spec fn job_hash(item: JsonValue) -> Seq<char> {
    fingerprint(json_text(item))
}

/// The content hash of the job item `item`.
pub fn compute_job_hash(item: &Json) -> (out: String)
    ensures
        out@ == job_hash(item@),
{
    let text = render(item);
    fingerprint_of(text.as_str())
}

/// The content hash of a profile: the fingerprint of its identifier, user,
/// type, metadata text and the two time stamps, laid end to end.
pub open spec fn profile_hash(
    id: Seq<char>,
    user_id: Seq<char>,
    kind: Seq<char>,
    metadata: JsonValue,
    created_at: Seq<char>,
    updated_at: Seq<char>,
) -> Seq<char> {
    fingerprint(id + user_id + kind + json_text(metadata) + created_at + updated_at)
}

/// The content hash of a profile with the given fields.
pub fn compute_profile_hash_of(
    id: &str,
    user_id: &str,
    kind: &str,
    metadata: &Json,
    created_at: &str,
    updated_at: &str,
) -> (out: String)
    ensures
        out@ == profile_hash(id@, user_id@, kind@, metadata@, created_at@, updated_at@),
{
    let mut all = String::new();
    all.append(id);
    all.append(user_id);
    all.append(kind);
    let meta = render(metadata);
    all.append(meta.as_str());
    all.append(created_at);
    all.append(updated_at);
    assert(all@ =~= id@ + user_id@ + kind@ + json_text(metadata@) + created_at@ + updated_at@);
    fingerprint_of(all.as_str())
}

/// The key under which the embedding of a text is cached, for a model.
pub open spec fn embedding_key(model: Seq<char>, text: Seq<char>) -> Seq<char> {
    "embedding:"@ + model + ":"@ + fingerprint(text)
}

/// The key under which the embedding of `text` is cached, for `model`.
pub fn embedding_cache_key(model: &str, text: &str) -> (out: String)
    ensures
        out@ == embedding_key(model@, text@),
{
    let mut key = String::new();
    key.append("embedding:");
    key.append(model);
    key.append(":");
    let digest = fingerprint_of(text);
    key.append(digest.as_str());
    assert(key@ =~= "embedding:"@ + model@ + ":"@ + fingerprint(text@));
    key
}

/// The HMAC-SHA256 tag of a message under a key.
pub uninterp spec fn hmac_tag(key: Seq<u8>, message: Seq<u8>) -> Seq<u8>;

/// `Mac::new_from_slice`, `update` and `finalize` of `Hmac<Sha256>` of the
/// crate `hmac`: the tag of the message under the key. HMAC takes a key of
/// any size, so there is a tag for every key.
#[verifier::external_body]
pub(crate) fn hmac_sha256(key: &[u8], message: &[u8]) -> (out: Option<Vec<u8>>)
    ensures
        out is Some,
        out->0@ == hmac_tag(key@, message@),
{
    match <hmac::Hmac<sha2::Sha256> as hmac::Mac>::new_from_slice(key) {
        Ok(mut mac) => {
            hmac::Mac::update(&mut mac, message);
            Some(hmac::Mac::finalize(mac).into_bytes().to_vec())
        },
        Err(_) => None,
    }
}

/// The lowercase hexadecimal text of `bytes`.
pub fn hex_of(bytes: &Vec<u8>) -> (out: String)
    ensures
        out@ == hex_text(bytes@),
{
    hex_encode(bytes.as_slice())
}

} // verus!
