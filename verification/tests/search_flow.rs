use bap_onest_lite::codec::render;
use bap_onest_lite::config::{
    AppConfig, AuthConfig, BackendServiceConfig, Bap, Bpp, CacheConfig, CronConfig, DbConfig,
    GcpConfig, HttpConfig, JobSchedule, MatchScoreConfig, NotificationConfig,
    NotificationSchedule, NotificationServiceConfig, RedisConfig, ScheduleType, ServicesConfig,
};
use bap_onest_lite::hash::{fingerprint_of, generate_query_hash};
use bap_onest_lite::json::Json;
use bap_onest_lite::keys::{cron_progress_key,
    consumer_name, cron_jobs_key, cron_jobs_pattern, cron_txn_key, group_name, latest_key,
    search_key, search_pattern, stream_name, throttle_key, txn_key,
};
use bap_onest_lite::search::{
    adapter_url, cache_write, decide_throttle, handle_on_search, handle_search, plan_search,
    route_on_search, search_reply, search_results, OnSearchOutcome, OnSearchRoute, ThrottleProbe,
};
use bap_onest_lite::store::MemoryStore;

fn obj(fields: Vec<(&str, Json)>) -> Json {
    Json::Object(fields.into_iter().map(|(k, v)| (k.to_string(), v)).collect())
}

fn config() -> AppConfig {
    AppConfig {
        debug: false,
        bap: Bap {
            id: "bap-1".to_string(),
            caller_uri: "http://adapter".to_string(),
            bap_uri: "http://bap".to_string(),
            domain: "jobs".to_string(),
            version: "1.1.0".to_string(),
            ttl: "PT30S".to_string(),
        },
        bpp: Bpp {
            id: "bpp-self".to_string(),
            caller_uri: "http://bpp-adapter/".to_string(),
            catalog_name: "Profiles".to_string(),
        },
        http: HttpConfig { address: "0.0.0.0".to_string(), port: "8080".to_string() },
        redis: RedisConfig { url: "redis://x".to_string() },
        db: DbConfig { url: "postgres://x".to_string() },
        cache: CacheConfig { result_ttl_secs: 300, txn_ttl_secs: 120, throttle_secs: 60 },
        cron: CronConfig {
            fetch_jobs: JobSchedule { seconds: 3600 },
            fetch_profiles: JobSchedule { seconds: 1800 },
            compute_match_scores: MatchScoreConfig { source: "empeding".to_string(), batch: 50 },
            notification: NotificationConfig {
                min_score: 70,
                batch: 10,
                schedule: NotificationSchedule {
                    schedule_type: ScheduleType::Weekly,
                    weekday: None,
                    day: None,
                    hour: 9,
                    minute: 5,
                    seconds: 0,
                },
            },
        },
        gcp: GcpConfig {
            project_id: "p".to_string(),
            model: "m".to_string(),
            auth_token: "t".to_string(),
        },
        match_score_path: "rules.json".to_string(),
        metadata_match: vec![],
        services: ServicesConfig {
            seeker: BackendServiceConfig { base_url: "http://seeker".to_string(), api_key: "k".to_string() },
            notification: NotificationServiceConfig {
                base_url: "http://notify/".to_string(),
                content_sid: "sid".to_string(),
                ns_key_id: "kid".to_string(),
                ns_secret: "s3cret".to_string(),
            },
        },
        auth: AuthConfig { x_api_key: "key".to_string() },
    }
}

fn message() -> Json {
    obj(vec![
        ("intent", Json::empty_object()),
        ("pagination", obj(vec![("page", Json::Int(1)), ("limit", Json::Int(10))])),
    ])
}

fn callback(txn: &str, bpp: &str) -> Json {
    obj(vec![
        (
            "context",
            obj(vec![("transaction_id", Json::text(txn)), ("bpp_id", Json::text(bpp))]),
        ),
        (
            "message",
            obj(vec![(
                "catalog",
                obj(vec![(
                    "providers",
                    Json::Array(vec![obj(vec![
                        ("id", Json::text("provider-1")),
                        ("items", Json::Array(vec![obj(vec![("id", Json::text("item-1"))])])),
                    ])]),
                )]),
            )]),
        ),
    ])
}

#[test]
fn key_names_are_as_documented() {
    assert_eq!(search_key("q1", "bpp-A"), "search:q1:bpp-A");
    assert_eq!(search_pattern("q1"), "search:q1:*");
    assert_eq!(txn_key("txn-9"), "txn_to_query:txn-9");
    assert_eq!(throttle_key("q1"), "last_call:q1");
    assert_eq!(cron_jobs_key("cron-1", "bpp-C"), "cron_jobs:cron-1:bpp-C");
    assert_eq!(cron_jobs_pattern("cron-1"), "cron_jobs:cron-1:*");
    assert_eq!(cron_txn_key("cron-1"), "cron_txn:cron-1");
    assert_eq!(cron_progress_key("cron-1"), "cron_progress:cron-1");
    assert_eq!(latest_key(), "cron_txn:latest");
    assert_eq!(stream_name(), "app_events");
    assert_eq!(group_name(), "bap_group");
    assert_eq!(consumer_name(), "worker_1");
}

#[test]
fn query_hash_is_sha256_of_canonical_text() {
    assert_eq!(
        generate_query_hash(&message()),
        "972bb1bdf7566031b73aedcb042c658e43885a363305b37a1f80505300f4a8f1"
    );
    assert_eq!(generate_query_hash(&message()).len(), 64);
}

#[test]
fn throttle_decision_table() {
    let d = decide_throttle(ThrottleProbe::Present);
    assert!(!d.dispatch && !d.mark && !d.unavailable);
    let d = decide_throttle(ThrottleProbe::Absent);
    assert!(d.dispatch && d.mark && !d.unavailable);
    let d = decide_throttle(ThrottleProbe::Failed);
    assert!(!d.dispatch && !d.mark && d.unavailable);
    let r = search_reply(d, vec![Json::Int(1)]);
    assert_eq!((r.status, render(&r.body)), (503, "{\"error\":\"Transient store unavailable\"}".to_string()));
    let d = decide_throttle(ThrottleProbe::Unreachable);
    assert!(!d.dispatch && !d.mark && d.unavailable);
    let r = search_reply(decide_throttle(ThrottleProbe::Present), vec![Json::Int(1)]);
    assert_eq!((r.status, render(&r.body)), (200, "{\"results\":[1]}".to_string()));
}

#[test]
fn search_results_wraps_cached_answers() {
    assert_eq!(render(&search_results(vec![])), "{\"results\":[]}");
    assert_eq!(
        render(&search_results(vec![Json::Int(1), Json::text("a")])),
        "{\"results\":[1,\"a\"]}"
    );
}

#[test]
fn search_plan_names_keys_and_payload() {
    let cfg = config();
    let plan = plan_search(&cfg, &message(), "txn-1", "msg-1", "2024-01-01T00:00:00+00:00");
    let q = generate_query_hash(&message());
    assert_eq!(plan.query_hash, q);
    assert_eq!(plan.cache_prefix, format!("search:{}:", q));
    assert_eq!(plan.txn_key, "txn_to_query:txn-1");
    assert_eq!(plan.throttle_key, format!("last_call:{}", q));
    assert_eq!(plan.adapter_url, "http://adapter/search");
    assert_eq!(
        render(&plan.payload),
        "{\"context\":{\"action\":\"search\",\"bap_id\":\"bap-1\",\"bap_uri\":\"http://bap\",\"domain\":\"jobs\",\"message_id\":\"msg-1\",\"timestamp\":\"2024-01-01T00:00:00+00:00\",\"transaction_id\":\"txn-1\",\"ttl\":\"PT30S\",\"version\":\"1.1.0\"},\"message\":{\"intent\":{},\"pagination\":{\"limit\":10,\"page\":1}}}"
    );
    assert_eq!(adapter_url(&cfg, "select"), "http://adapter/select");
}

#[test]
fn first_search_populates_cache() {
    let cfg = config();
    let mut store = MemoryStore::new();
    let first = handle_search(&mut store, &cfg.cache, &message(), "txn-1", 1000);
    assert!(first.cached.is_empty());
    assert!(first.dispatch);
    assert_eq!(render(&search_results(vec![])), "{\"results\":[]}");
    let q = first.query_hash.clone();
    assert_eq!(store.get("txn_to_query:txn-1", 1000), Some(q.clone()));

    let payload = callback("txn-1", "bpp-A");
    let outcome = handle_on_search(&mut store, &cfg.cache, "txn-1", Some("bpp-A"), &payload, 1005);
    assert_eq!(outcome, OnSearchOutcome::Stored);
    let key = format!("search:{}:bpp-A", q);
    assert_eq!(store.get(&key, 1005), Some(render(&payload)));
    let ttl = store.ttl(&key, 1005).unwrap();
    assert!(ttl <= 300);
    assert_eq!(ttl, 300);
    assert_eq!(store.ttl(&key, 1100), Some(205));

    let second = handle_search(&mut store, &cfg.cache, &message(), "txn-2", 1010);
    assert_eq!(second.cached, vec![render(&payload)]);
    assert!(!second.dispatch);
}

#[test]
fn no_second_request_within_the_throttle_window() {
    let cfg = config();
    let mut store = MemoryStore::new();
    assert!(handle_search(&mut store, &cfg.cache, &message(), "txn-1", 1000).dispatch);
    assert!(!handle_search(&mut store, &cfg.cache, &message(), "txn-2", 1000).dispatch);
    assert!(!handle_search(&mut store, &cfg.cache, &message(), "txn-3", 1059).dispatch);
    assert!(handle_search(&mut store, &cfg.cache, &message(), "txn-4", 1060).dispatch);
    assert!(!handle_search(&mut store, &cfg.cache, &message(), "txn-5", 1061).dispatch);
}

#[test]
fn throttle_is_per_query() {
    let cfg = config();
    let mut store = MemoryStore::new();
    let other = obj(vec![("intent", obj(vec![("x", Json::Int(1))]))]);
    assert!(handle_search(&mut store, &cfg.cache, &message(), "txn-1", 1000).dispatch);
    assert!(handle_search(&mut store, &cfg.cache, &other, "txn-2", 1001).dispatch);
    assert!(!handle_search(&mut store, &cfg.cache, &other, "txn-3", 1002).dispatch);
}

#[test]
fn cached_answers_expire() {
    let cfg = config();
    let mut store = MemoryStore::new();
    handle_search(&mut store, &cfg.cache, &message(), "txn-1", 1000);
    let payload = callback("txn-1", "bpp-A");
    handle_on_search(&mut store, &cfg.cache, "txn-1", Some("bpp-A"), &payload, 1001);
    assert_eq!(handle_search(&mut store, &cfg.cache, &message(), "txn-2", 1300).cached.len(), 1);
    assert!(handle_search(&mut store, &cfg.cache, &message(), "txn-3", 1301).cached.is_empty());
}

#[test]
fn answers_of_several_providers_are_merged_under_one_query() {
    let cfg = config();
    let mut store = MemoryStore::new();
    handle_search(&mut store, &cfg.cache, &message(), "txn-1", 1000);
    handle_on_search(&mut store, &cfg.cache, "txn-1", Some("bpp-A"), &callback("txn-1", "bpp-A"), 1001);
    handle_on_search(&mut store, &cfg.cache, "txn-1", Some("bpp-B"), &callback("txn-1", "bpp-B"), 1002);
    handle_on_search(&mut store, &cfg.cache, "txn-1", Some("bpp-A"), &callback("txn-1", "bpp-A"), 1003);
    let mut cached = handle_search(&mut store, &cfg.cache, &message(), "txn-2", 1004).cached;
    cached.sort();
    let mut expected = vec![render(&callback("txn-1", "bpp-A")), render(&callback("txn-1", "bpp-B"))];
    expected.sort();
    assert_eq!(cached, expected);
}

#[test]
fn on_search_drops_unknown_transactions_and_missing_providers() {
    let cfg = config();
    let mut store = MemoryStore::new();
    let payload = callback("txn-x", "bpp-A");
    assert_eq!(
        handle_on_search(&mut store, &cfg.cache, "txn-x", Some("bpp-A"), &payload, 10),
        OnSearchOutcome::Dropped
    );
    handle_search(&mut store, &cfg.cache, &message(), "txn-1", 1000);
    assert_eq!(
        handle_on_search(&mut store, &cfg.cache, "txn-1", None, &payload, 1001),
        OnSearchOutcome::Dropped
    );
    assert_eq!(
        handle_on_search(&mut store, &cfg.cache, "txn-1", Some("bpp-A"), &payload, 1121),
        OnSearchOutcome::Dropped
    );
    assert!(handle_search(&mut store, &cfg.cache, &message(), "txn-2", 2000).cached.is_empty());
}

#[test]
fn on_search_routes_sweeps_apart() {
    assert_eq!(route_on_search("cron-123"), OnSearchRoute::Cron);
    assert_eq!(route_on_search("txn-123"), OnSearchRoute::Cached);
    assert_eq!(route_on_search("cron"), OnSearchRoute::Cached);
    assert_eq!(route_on_search(""), OnSearchRoute::Cached);
    let cfg = config();
    let mut store = MemoryStore::new();
    assert_eq!(
        handle_on_search(&mut store, &cfg.cache, "cron-1", Some("bpp-A"), &callback("cron-1", "bpp-A"), 5),
        OnSearchOutcome::Cron
    );
}

#[test]
fn cache_write_needs_query_and_provider() {
    let payload = Json::Int(7);
    assert_eq!(
        cache_write(Some("q"), Some("b"), &payload),
        Some(("search:q:b".to_string(), "7".to_string()))
    );
    assert_eq!(cache_write(None, Some("b"), &payload), None);
    assert_eq!(cache_write(Some("q"), None, &payload), None);
}

#[test]
fn memory_store_set_get_and_expiry() {
    let mut store = MemoryStore::new();
    assert_eq!(store.get("a", 0), None);
    store.set("a", "1");
    store.set_ex("b", "2", 10, 100);
    assert_eq!(store.get("a", u64::MAX), Some("1".to_string()));
    assert_eq!(store.ttl("a", 5), None);
    assert!(store.contains("b", 109));
    assert!(!store.contains("b", 110));
    assert_eq!(store.ttl("b", 104), Some(6));
    store.set_ex("b", "3", 1, 200);
    assert_eq!(store.get("b", 200), Some("3".to_string()));
    store.set_ex("c", "4", u64::MAX, u64::MAX);
    assert!(store.contains("c", u64::MAX));
    let mut values = store.values_with_prefix("", 200);
    values.sort();
    assert_eq!(values, vec!["1", "3", "4"]);
    assert_eq!(store.values_with_prefix("b", 200), vec!["3"]);
    assert!(store.values_with_prefix("bb", 200).is_empty());
}

#[test]
fn fingerprint_differs_for_different_texts() {
    assert_ne!(fingerprint_of("a"), fingerprint_of("b"));
}
