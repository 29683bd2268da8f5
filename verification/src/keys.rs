//! The names of the entries in the transient store.

use crate::text::has_prefix;
use vstd::prelude::*;
use vstd::string::StringExecFns;

verus! {

/// The key of the cached answer of one provider to a query.
pub open spec fn search_key_text(query_hash: Seq<char>, bpp_id: Seq<char>) -> Seq<char> {
    "search:"@ + query_hash + ":"@ + bpp_id
}

/// The pattern that matches the cached answers of every provider to a
/// query.
pub open spec fn search_pattern_text(query_hash: Seq<char>) -> Seq<char> {
    "search:"@ + query_hash + ":*"@
}

/// The key that maps a transaction to the query it was started for.
pub open spec fn txn_key_text(txn_id: Seq<char>) -> Seq<char> {
    "txn_to_query:"@ + txn_id
}

/// The key whose presence says that a query was dispatched not long ago.
pub open spec fn throttle_key_text(query_hash: Seq<char>) -> Seq<char> {
    "last_call:"@ + query_hash
}

/// The key under which a sweep gathers what one provider sent.
pub open spec fn cron_jobs_key_text(txn_id: Seq<char>, bpp_id: Seq<char>) -> Seq<char> {
    "cron_jobs:"@ + txn_id + ":"@ + bpp_id
}

/// The pattern that matches what every provider sent in a sweep.
pub open spec fn cron_jobs_pattern_text(txn_id: Seq<char>) -> Seq<char> {
    "cron_jobs:"@ + txn_id + ":*"@
}

/// The key under which a sweep keeps its own description.
pub open spec fn cron_txn_key_text(txn_id: Seq<char>) -> Seq<char> {
    "cron_txn:"@ + txn_id
}

/// The key under which a sweep keeps how far it is with each provider
/// that replied.
pub open spec fn cron_progress_key_text(txn_id: Seq<char>) -> Seq<char> {
    "cron_progress:"@ + txn_id
}

/// The key that names the sweep that was completed last.
pub open spec fn latest_key_text() -> Seq<char> {
    "cron_txn:latest"@
}

/// The name of the stream of profile events.
pub open spec fn stream_name_text() -> Seq<char> {
    "app_events"@
}

/// The name of the consumer group on that stream.
pub open spec fn group_name_text() -> Seq<char> {
    "bap_group"@
}

/// The name of this consumer in that group.
pub open spec fn consumer_name_text() -> Seq<char> {
    "worker_1"@
}

/// The key of the cached answer of provider `bpp_id` to the query
/// `query_hash`.
pub fn search_key(query_hash: &str, bpp_id: &str) -> (out: String)
    ensures
        out@ == search_key_text(query_hash@, bpp_id@),
{
    let mut key = String::new();
    key.append("search:");
    key.append(query_hash);
    key.append(":");
    key.append(bpp_id);
    assert(key@ =~= search_key_text(query_hash@, bpp_id@));
    key
}

/// The pattern for the cached answers to the query `query_hash`.
pub fn search_pattern(query_hash: &str) -> (out: String)
    ensures
        out@ == search_pattern_text(query_hash@),
{
    let mut key = String::new();
    key.append("search:");
    key.append(query_hash);
    key.append(":*");
    assert(key@ =~= search_pattern_text(query_hash@));
    key
}

/// The key that maps the transaction `txn_id` to its query.
pub fn txn_key(txn_id: &str) -> (out: String)
    ensures
        out@ == txn_key_text(txn_id@),
{
    let mut key = String::new();
    key.append("txn_to_query:");
    key.append(txn_id);
    assert(key@ =~= txn_key_text(txn_id@));
    key
}

/// The throttle key of the query `query_hash`.
pub fn throttle_key(query_hash: &str) -> (out: String)
    ensures
        out@ == throttle_key_text(query_hash@),
{
    let mut key = String::new();
    key.append("last_call:");
    key.append(query_hash);
    assert(key@ =~= throttle_key_text(query_hash@));
    key
}

/// The key under which the sweep `txn_id` gathers what `bpp_id` sent.
pub fn cron_jobs_key(txn_id: &str, bpp_id: &str) -> (out: String)
    ensures
        out@ == cron_jobs_key_text(txn_id@, bpp_id@),
{
    let mut key = String::new();
    key.append("cron_jobs:");
    key.append(txn_id);
    key.append(":");
    key.append(bpp_id);
    assert(key@ =~= cron_jobs_key_text(txn_id@, bpp_id@));
    key
}

/// The pattern for what every provider sent in the sweep `txn_id`.
pub fn cron_jobs_pattern(txn_id: &str) -> (out: String)
    ensures
        out@ == cron_jobs_pattern_text(txn_id@),
{
    let mut key = String::new();
    key.append("cron_jobs:");
    key.append(txn_id);
    key.append(":*");
    assert(key@ =~= cron_jobs_pattern_text(txn_id@));
    key
}

/// The key under which the sweep `txn_id` keeps its own description.
pub fn cron_txn_key(txn_id: &str) -> (out: String)
    ensures
        out@ == cron_txn_key_text(txn_id@),
{
    let mut key = String::new();
    key.append("cron_txn:");
    key.append(txn_id);
    assert(key@ =~= cron_txn_key_text(txn_id@));
    key
}

/// The key under which the sweep `txn_id` keeps how far it is with each
/// provider that replied.
pub fn cron_progress_key(txn_id: &str) -> (out: String)
    ensures
        out@ == cron_progress_key_text(txn_id@),
{
    let mut key = String::new();
    key.append("cron_progress:");
    key.append(txn_id);
    assert(key@ =~= cron_progress_key_text(txn_id@));
    key
}

/// The key that names the sweep that was completed last.
pub fn latest_key() -> (out: &'static str)
    ensures
        out@ == latest_key_text(),
{
    "cron_txn:latest"
}

/// The name of the stream of profile events.
pub fn stream_name() -> (out: &'static str)
    ensures
        out@ == stream_name_text(),
{
    "app_events"
}

/// The name of the consumer group on that stream.
pub fn group_name() -> (out: &'static str)
    ensures
        out@ == group_name_text(),
{
    "bap_group"
}

/// The name of this consumer in that group.
pub fn consumer_name() -> (out: &'static str)
    ensures
        out@ == consumer_name_text(),
{
    "worker_1"
}

/// Whether a transaction belongs to a sweep: its identifier begins with
/// `cron-`.
pub open spec fn is_cron_txn(txn_id: Seq<char>) -> bool {
    has_prefix(txn_id, "cron-"@)
}

} // verus!
