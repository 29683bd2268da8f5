//! The search coordinator: cached fan-in of the providers' answers, with
//! outbound requests throttled per query.

use crate::callflow::{error_body, error_reply, CallReply, CallReplyView};
use crate::codec::{json_text, render};
use crate::config::{AppConfig, CacheConfig};
use crate::hash::{generate_query_hash, query_hash};
use crate::json::{values_of, Json, JsonValue};
use crate::keys::{
    is_cron_txn, search_key, search_key_text, throttle_key, throttle_key_text, txn_key,
    txn_key_text,
};
use crate::models::object1;
use crate::payload::{build_beckn_payload_at, context_value, payload_value};
use crate::store::{
    expiry, time_left, under_prefix, value_at, MemoryStore, Stored,
};
use crate::text::{chars_of, has_prefix, starts_with_chars};
use vstd::prelude::*;
use vstd::string::StringExecFns;

verus! {

/// What the transient store told about the throttle key of a query.
#[derive(Debug, Clone, Copy, PartialEq, Eq, Structural)]
pub enum ThrottleProbe {
    /// The store could not be reached.
    Unreachable,
    /// The key is there: the query was dispatched not long ago.
    Present,
    /// The key is not there.
    Absent,
    /// The store was reached but did not answer the question.
    Failed,
}

/// What to do about the outbound request of a search.
#[derive(Debug, Clone, Copy, PartialEq, Eq, Structural)]
pub struct ThrottleDecision {
    /// Whether to send the request to the adapter.
    pub dispatch: bool,
    /// Whether to set the throttle key.
    pub mark: bool,
    /// Whether the search is answered as failed, because the store could
    /// not tell whether a request went out within the window.
    pub unavailable: bool,
}

/// The decision for a probe: the request goes out, and the key is set,
/// only where the store told that the key is not there. Where the store
/// could not be asked, no request goes out, so that no window sees two,
/// and the search is answered as failed.
pub open spec fn throttle_decision(probe: ThrottleProbe) -> ThrottleDecision {
    ThrottleDecision {
        dispatch: probe == ThrottleProbe::Absent,
        mark: probe == ThrottleProbe::Absent,
        unavailable: probe == ThrottleProbe::Unreachable || probe == ThrottleProbe::Failed,
    }
}

/// What to do about the outbound request of a search, given what the
/// store told.
pub fn decide_throttle(probe: ThrottleProbe) -> (out: ThrottleDecision)
    ensures
        out == throttle_decision(probe),
{
    match probe {
        ThrottleProbe::Unreachable => ThrottleDecision {
            dispatch: false,
            mark: false,
            unavailable: true,
        },
        ThrottleProbe::Present => ThrottleDecision {
            dispatch: false,
            mark: false,
            unavailable: false,
        },
        ThrottleProbe::Absent => ThrottleDecision { dispatch: true, mark: true, unavailable: false },
        ThrottleProbe::Failed => ThrottleDecision {
            dispatch: false,
            mark: false,
            unavailable: true,
        },
    }
}

/// The reply to a search: the cached answers, or store-unavailable where
/// the store could not be asked.
pub open spec fn search_reply_value(decision: ThrottleDecision, cached: Seq<JsonValue>) -> CallReplyView {
    if decision.unavailable {
        CallReplyView { status: 503, body: error_body("Transient store unavailable"@) }
    } else {
        CallReplyView { status: 200, body: results_value(cached) }
    }
}

/// The reply to a search with the decision `decision` and the cached
/// answers `cached`.
pub fn search_reply(decision: ThrottleDecision, cached: Vec<Json>) -> (out: CallReply)
    ensures
        out@ == search_reply_value(decision, values_of(cached@)),
{
    if decision.unavailable {
        error_reply(503, "Transient store unavailable")
    } else {
        CallReply { status: 200, body: search_results(cached) }
    }
}

/// The answer to a search: `{results: [..]}` with the cached answers of
/// the providers, none where none has come in.
pub open spec fn results_value(cached: Seq<JsonValue>) -> JsonValue {
    object1("results"@, JsonValue::Array(cached))
}

/// The answer to a search with the cached answers `cached`.
pub fn search_results(cached: Vec<Json>) -> (out: Json)
    ensures
        out@ == results_value(values_of(cached@)),
{
    Json::empty_object().with_field("results", Json::array(cached))
}

/// The address of the adapter for an action: the caller's address, a
/// slash, the action.
pub open spec fn adapter_address(config: AppConfig, action: Seq<char>) -> Seq<char> {
    config.bap.caller_uri@ + "/"@ + action
}

/// The address of the adapter for `action`.
pub fn adapter_url(config: &AppConfig, action: &str) -> (out: String)
    ensures
        out@ == adapter_address(*config, action@),
{
    let mut url = config.bap.caller_uri.clone();
    url.append("/");
    url.append(action);
    assert(url@ =~= adapter_address(*config, action@));
    url
}

/// What a search needs from the store and sends to the adapter.
pub struct SearchPlan {
    pub query_hash: String,
    /// The prefix of the keys that hold the cached answers.
    pub cache_prefix: String,
    pub txn_key: String,
    pub throttle_key: String,
    pub adapter_url: String,
    pub payload: Json,
}

/// The plan of a search for `message` in the transaction `txn_id`, sent
/// as the message `message_id` at the time `now`.
pub fn plan_search(config: &AppConfig, message: &Json, txn_id: &str, message_id: &str, now: &str) -> (out:
    SearchPlan)
    ensures
        out.query_hash@ == query_hash(message@),
        out.cache_prefix@ == search_key_text(query_hash(message@), Seq::empty()),
        out.txn_key@ == txn_key_text(txn_id@),
        out.throttle_key@ == throttle_key_text(query_hash(message@)),
        out.adapter_url@ == adapter_address(*config, "search"@),
        out.payload@ == payload_value(
            context_value(*config, txn_id@, message_id@, "search"@, None, None, now@),
            message@,
        ),
{
    let q = generate_query_hash(message);
    proof {
        reveal_strlit("");
        assert(""@ =~= Seq::<char>::empty());
    }
    SearchPlan {
        cache_prefix: search_key(q.as_str(), ""),
        txn_key: txn_key(txn_id),
        throttle_key: throttle_key(q.as_str()),
        adapter_url: adapter_url(config, "search"),
        payload: build_beckn_payload_at(config, txn_id, message_id, message, "search", None, None, now),
        query_hash: q,
    }
}

/// Where a search callback goes.
#[derive(Debug, Clone, Copy, PartialEq, Eq, Structural)]
pub enum OnSearchRoute {
    /// To the sweep that asked.
    Cron,
    /// To the cache of the query that asked.
    Cached,
}

/// Where the callback of the transaction `txn_id` goes: to the sweep
/// where the transaction belongs to one.
pub fn route_on_search(txn_id: &str) -> (out: OnSearchRoute)
    ensures
        out == if is_cron_txn(txn_id@) {
            OnSearchRoute::Cron
        } else {
            OnSearchRoute::Cached
        },
{
    let txn = chars_of(txn_id);
    let prefix = chars_of("cron-");
    if starts_with_chars(&txn, &prefix) {
        OnSearchRoute::Cron
    } else {
        OnSearchRoute::Cached
    }
}

/// The cache entry that a callback makes: under the key of the query and
/// the provider, the JSON text of the callback. Nothing where the query
/// of the transaction is not known, or the callback names no provider.
pub open spec fn cache_entry(
    query: Option<Seq<char>>,
    bpp_id: Option<Seq<char>>,
    payload: JsonValue,
) -> Option<(Seq<char>, Seq<char>)> {
    match (query, bpp_id) {
        (Some(q), Some(b)) => Some((search_key_text(q, b), json_text(payload))),
        _ => None,
    }
}

/// The cache entry that the callback `payload` makes.
pub fn cache_write(query: Option<&str>, bpp_id: Option<&str>, payload: &Json) -> (out: Option<
    (String, String),
>)
    ensures
        match out {
            Some(entry) => cache_entry(
                crate::sweep::str_view(query),
                crate::sweep::str_view(bpp_id),
                payload@,
            ) == Some((entry.0@, entry.1@)),
            None => cache_entry(
                crate::sweep::str_view(query),
                crate::sweep::str_view(bpp_id),
                payload@,
            ) is None,
        },
{
    match (query, bpp_id) {
        (Some(q), Some(b)) => Some((search_key(q, b), render(payload))),
        _ => None,
    }
}

/// Whether a search for the query `q` at the second `now` sends a request
/// to the adapter: its throttle key is not in the store.
pub open spec fn dispatches(entries: Map<Seq<char>, Stored>, q: Seq<char>, now: u64) -> bool {
    value_at(entries, throttle_key_text(q), now) is None
}

/// The marker under a throttle key.
pub open spec fn throttle_mark(cache: CacheConfig, now: u64) -> Stored {
    Stored { value: "1"@, expires_at: Some(expiry(now, cache.throttle_secs)) }
}

/// The store after a search for the query `q` in the transaction `txn`
/// at the second `now`: the transaction is mapped to the query, and the
/// throttle key is set where the search sends a request.
pub open spec fn searched(
    entries: Map<Seq<char>, Stored>,
    cache: CacheConfig,
    q: Seq<char>,
    txn: Seq<char>,
    now: u64,
) -> Map<Seq<char>, Stored> {
    let mapped = entries.insert(
        txn_key_text(txn),
        Stored { value: q, expires_at: Some(expiry(now, cache.txn_ttl_secs)) },
    );
    if dispatches(mapped, q, now) {
        mapped.insert(throttle_key_text(q), throttle_mark(cache, now))
    } else {
        mapped
    }
}

/// What a search against the store in memory came to.
pub struct SearchOutcome {
    pub query_hash: String,
    /// The JSON texts of the cached answers, in no particular order.
    pub cached: Vec<String>,
    /// Whether a request is to be sent to the adapter.
    pub dispatch: bool,
}

/// A search against the store in memory, at the second `now`: the cached
/// answers of the providers to this query are read, the transaction is
/// mapped to the query, and a request goes out unless one went out within
/// the throttle window.
pub fn handle_search(
    store: &mut MemoryStore,
    cache: &CacheConfig,
    message: &Json,
    txn_id: &str,
    now: u64,
) -> (out: SearchOutcome)
    requires
        old(store).well_formed(),
    ensures
        final(store).well_formed(),
        out.query_hash@ == query_hash(message@),
        final(store)@ == searched(old(store)@, *cache, query_hash(message@), txn_id@, now),
        out.dispatch == dispatches(
            old(store)@.insert(
                txn_key_text(txn_id@),
                Stored {
                    value: query_hash(message@),
                    expires_at: Some(expiry(now, cache.txn_ttl_secs)),
                },
            ),
            query_hash(message@),
            now,
        ),
        crate::store::holds_values_under(
            old(store)@,
            search_key_text(query_hash(message@), Seq::empty()),
            now,
            out.cached@,
        ),
        forall|k: int|
            0 <= k < out.cached.len() ==> under_prefix(
                old(store)@,
                search_key_text(query_hash(message@), Seq::empty()),
                now,
                #[trigger] out.cached@[k]@,
            ),
        forall|key: Seq<char>|
            has_prefix(key, search_key_text(query_hash(message@), Seq::empty())) && (
            #[trigger] value_at(old(store)@, key, now)).is_some() ==> crate::store::holds_text(
                out.cached@,
                value_at(old(store)@, key, now)->0,
            ),
{
    let q = generate_query_hash(message);
    proof {
        reveal_strlit("");
        assert(""@ =~= Seq::<char>::empty());
    }
    let prefix = search_key(q.as_str(), "");
    let cached = store.values_with_prefix(prefix.as_str(), now);
    store.set_ex(txn_key(txn_id).as_str(), q.as_str(), cache.txn_ttl_secs, now);
    let throttle = throttle_key(q.as_str());
    let probe = if store.contains(throttle.as_str(), now) {
        ThrottleProbe::Present
    } else {
        ThrottleProbe::Absent
    };
    let decision = decide_throttle(probe);
    if decision.mark {
        store.set_ex(throttle.as_str(), "1", cache.throttle_secs, now);
    }
    SearchOutcome { query_hash: q, cached, dispatch: decision.dispatch }
}

/// What became of a search callback.
#[derive(Debug, Clone, Copy, PartialEq, Eq, Structural)]
pub enum OnSearchOutcome {
    /// The callback belongs to a sweep.
    Cron,
    /// The callback was dropped: the query of its transaction is not
    /// known, or it names no provider.
    Dropped,
    /// The callback was cached as the answer of its provider.
    Stored,
}

/// The store after the callback `payload` of the transaction `txn` from
/// the provider `bpp_id` came in at the second `now`.
pub open spec fn answered(
    entries: Map<Seq<char>, Stored>,
    cache: CacheConfig,
    txn: Seq<char>,
    bpp_id: Option<Seq<char>>,
    payload: JsonValue,
    now: u64,
) -> Map<Seq<char>, Stored> {
    if is_cron_txn(txn) {
        entries
    } else {
        match cache_entry(value_at(entries, txn_key_text(txn), now), bpp_id, payload) {
            Some(entry) => entries.insert(
                entry.0,
                Stored { value: entry.1, expires_at: Some(expiry(now, cache.result_ttl_secs)) },
            ),
            None => entries,
        }
    }
}

/// A search callback against the store in memory, at the second `now`.
pub fn handle_on_search(
    store: &mut MemoryStore,
    cache: &CacheConfig,
    txn_id: &str,
    bpp_id: Option<&str>,
    payload: &Json,
    now: u64,
) -> (out: OnSearchOutcome)
    requires
        old(store).well_formed(),
    ensures
        final(store).well_formed(),
        final(store)@ == answered(
            old(store)@,
            *cache,
            txn_id@,
            crate::sweep::str_view(bpp_id),
            payload@,
            now,
        ),
        out == if is_cron_txn(txn_id@) {
            OnSearchOutcome::Cron
        } else if cache_entry(
            value_at(old(store)@, txn_key_text(txn_id@), now),
            crate::sweep::str_view(bpp_id),
            payload@,
        ) is Some {
            OnSearchOutcome::Stored
        } else {
            OnSearchOutcome::Dropped
        },
{
    match route_on_search(txn_id) {
        OnSearchRoute::Cron => OnSearchOutcome::Cron,
        OnSearchRoute::Cached => {
            let query = store.get(txn_key(txn_id).as_str(), now);
            let entry = match &query {
                Some(q) => cache_write(Some(q.as_str()), bpp_id, payload),
                None => cache_write(None, bpp_id, payload),
            };
            match entry {
                Some((key, value)) => {
                    store.set_ex(key.as_str(), value.as_str(), cache.result_ttl_secs, now);
                    OnSearchOutcome::Stored
                },
                None => OnSearchOutcome::Dropped,
            }
        },
    }
}

/// The keys of transactions, of throttles and of cached answers never
/// coincide.
pub proof fn lemma_keys_apart(txn: Seq<char>, q: Seq<char>, q2: Seq<char>, bpp: Seq<char>)
    ensures
        txn_key_text(txn) != throttle_key_text(q),
        search_key_text(q2, bpp) != throttle_key_text(q),
        search_key_text(q2, bpp) != txn_key_text(txn),
{
    reveal_strlit("txn_to_query:");
    reveal_strlit("last_call:");
    reveal_strlit("search:");
    assert(txn_key_text(txn)[0] == 't');
    assert(throttle_key_text(q)[0] == 'l');
    assert(search_key_text(q2, bpp)[0] == 's');
}

/// Throttle: after a search that sent a request, a search for the same
/// query within the throttle window sends none, as long as the throttle
/// key is as the first search left it.
pub proof fn lemma_throttled_within_window(
    entries: Map<Seq<char>, Stored>,
    later: Map<Seq<char>, Stored>,
    cache: CacheConfig,
    q: Seq<char>,
    txn: Seq<char>,
    first: u64,
    second: u64,
)
    requires
        first <= second,
        second - first < cache.throttle_secs,
        dispatches(
            entries.insert(
                txn_key_text(txn),
                Stored { value: q, expires_at: Some(expiry(first, cache.txn_ttl_secs)) },
            ),
            q,
            first,
        ),
        later.dom().contains(throttle_key_text(q)),
        later[throttle_key_text(q)] == searched(entries, cache, q, txn, first)[throttle_key_text(
            q,
        )],
    ensures
        !dispatches(later, q, second),
{
    lemma_keys_apart(txn, q, q, Seq::empty());
}

/// Of two searches for the same query within one throttle window, one
/// right after the other, at most one sends a request to the adapter.
pub proof fn lemma_one_request_per_window(
    entries: Map<Seq<char>, Stored>,
    cache: CacheConfig,
    q: Seq<char>,
    txn1: Seq<char>,
    txn2: Seq<char>,
    first: u64,
    second: u64,
)
    requires
        first <= second,
        second - first < cache.throttle_secs,
        dispatches(
            entries.insert(
                txn_key_text(txn1),
                Stored { value: q, expires_at: Some(expiry(first, cache.txn_ttl_secs)) },
            ),
            q,
            first,
        ),
    ensures
        !dispatches(
            searched(entries, cache, q, txn1, first).insert(
                txn_key_text(txn2),
                Stored { value: q, expires_at: Some(expiry(second, cache.txn_ttl_secs)) },
            ),
            q,
            second,
        ),
{
    lemma_keys_apart(txn1, q, q, Seq::empty());
    lemma_keys_apart(txn2, q, q, Seq::empty());
}

/// A cached answer stays for no longer than the configured time, and
/// while it stays, it is among what a search for its query reads.
pub proof fn lemma_cached_answer(
    entries: Map<Seq<char>, Stored>,
    cache: CacheConfig,
    txn: Seq<char>,
    q: Seq<char>,
    bpp: Seq<char>,
    payload: JsonValue,
    now: u64,
    later: u64,
)
    requires
        !is_cron_txn(txn),
        value_at(entries, txn_key_text(txn), now) == Some(q),
        now <= later,
        later - now < cache.result_ttl_secs,
    ensures
        time_left(
            answered(entries, cache, txn, Some(bpp), payload, now),
            search_key_text(q, bpp),
            now,
        ) is Some,
        time_left(
            answered(entries, cache, txn, Some(bpp), payload, now),
            search_key_text(q, bpp),
            now,
        )->0 <= cache.result_ttl_secs,
        under_prefix(
            answered(entries, cache, txn, Some(bpp), payload, now),
            search_key_text(q, Seq::empty()),
            later,
            json_text(payload),
        ),
{
    let after = answered(entries, cache, txn, Some(bpp), payload, now);
    let key = search_key_text(q, bpp);
    assert(after[key].value == json_text(payload));
    assert(value_at(after, key, later) == Some(json_text(payload)));
    let prefix = search_key_text(q, Seq::empty());
    assert(key.take(prefix.len() as int) =~= prefix);
    assert(has_prefix(key, prefix));
}

} // verus!
