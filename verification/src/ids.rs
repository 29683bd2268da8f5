//! Identifiers of transactions and messages, and the time.

use vstd::prelude::*;
use vstd::string::StringExecFns;

verus! {

/// Whether a character is a digit or one of the letters `a` to `f`.
pub open spec fn is_lower_hex(c: char) -> bool {
    ('0' <= c && c <= '9') || ('a' <= c && c <= 'f')
}

/// Whether a text has the hyphenated form of a UUID: 36 characters,
/// hyphens after the groups of 8, 4, 4 and 4, and lowercase hexadecimal
/// digits everywhere else.
pub open spec fn is_uuid_text(text: Seq<char>) -> bool {
    &&& text.len() == 36
    &&& forall|i: int|
        0 <= i < 36 ==> if i == 8 || i == 13 || i == 18 || i == 23 {
            #[trigger] text[i] == '-'
        } else {
            is_lower_hex(#[trigger] text[i])
        }
}

/// `Uuid::new_v4` of the crate `uuid` and its `Display`: a random
/// identifier, written in the hyphenated form with lowercase digits.
/// Which identifier it is, is not promised.
#[verifier::external_body]
fn random_uuid() -> (out: String)
    ensures
        is_uuid_text(out@),
{
    uuid::Uuid::new_v4().to_string()
}

/// `Utc::now` and `DateTime::timestamp` of the crate `chrono`: the
/// current time in seconds. Nothing is promised of it.
#[verifier::external_body]
fn current_seconds() -> (out: i64) {
    chrono::Utc::now().timestamp()
}

/// The identifier of a message, made from a random part.
pub open spec fn message_id_text(random: Seq<char>) -> Seq<char> {
    "msg-"@ + random
}

/// The identifier of a client's transaction, made from a random part.
pub open spec fn txn_id_text(random: Seq<char>) -> Seq<char> {
    "txn-"@ + random
}

/// The identifier of the transaction of a sweep, made from a random
/// part.
pub open spec fn cron_txn_id_text(random: Seq<char>) -> Seq<char> {
    "cron-"@ + random
}

/// The identifier of a message with the random part `random`.
pub fn message_id_from(random: &str) -> (out: String)
    ensures
        out@ == message_id_text(random@),
{
    let mut id = String::new();
    id.append("msg-");
    id.append(random);
    assert(id@ =~= message_id_text(random@));
    id
}

/// The identifier of a client's transaction with the random part
/// `random`.
pub fn txn_id_from(random: &str) -> (out: String)
    ensures
        out@ == txn_id_text(random@),
{
    let mut id = String::new();
    id.append("txn-");
    id.append(random);
    assert(id@ =~= txn_id_text(random@));
    id
}

/// The identifier of the transaction of a sweep with the random part
/// `random`.
pub fn cron_txn_id_from(random: &str) -> (out: String)
    ensures
        out@ == cron_txn_id_text(random@),
        crate::keys::is_cron_txn(out@),
{
    let mut id = String::new();
    id.append("cron-");
    id.append(random);
    assert(id@ =~= cron_txn_id_text(random@));
    assert(id@.take("cron-"@.len() as int) =~= "cron-"@);
    id
}

/// A fresh identifier of a message: `msg-` and a random UUID in its
/// hyphenated form.
pub fn new_message_id() -> (out: String)
    ensures
        exists|random: Seq<char>|
            is_uuid_text(random) && out@ == #[trigger] message_id_text(random),
{
    let random = random_uuid();
    message_id_from(random.as_str())
}

/// A fresh identifier of a client's transaction: `txn-` and a random
/// UUID in its hyphenated form.
pub fn new_txn_id() -> (out: String)
    ensures
        exists|random: Seq<char>| is_uuid_text(random) && out@ == #[trigger] txn_id_text(random),
{
    let random = random_uuid();
    txn_id_from(random.as_str())
}

/// A fresh identifier of the transaction of a sweep: `cron-` and a
/// random UUID in its hyphenated form.
pub fn new_cron_txn_id() -> (out: String)
    ensures
        exists|random: Seq<char>|
            is_uuid_text(random) && out@ == #[trigger] cron_txn_id_text(random),
        crate::keys::is_cron_txn(out@),
{
    let random = random_uuid();
    cron_txn_id_from(random.as_str())
}

/// A fresh identifier of an event: a random UUID in its hyphenated form.
pub fn new_event_id() -> (out: String)
    ensures
        is_uuid_text(out@),
{
    random_uuid()
}

/// The current time in seconds since the epoch.
pub fn now_seconds() -> (out: i64) {
    current_seconds()
}

} // verus!
