use bap_onest_lite::codec::render;
use bap_onest_lite::config::{
    AppConfig, AuthConfig, BackendServiceConfig, Bap, Bpp, CacheConfig, CronConfig, DbConfig,
    GcpConfig, HttpConfig, JobSchedule, MatchMode, MatchScoreConfig, MetaDataMatch,
    NotificationConfig, NotificationSchedule, NotificationServiceConfig, RedisConfig,
    ScheduleType, ServicesConfig,
};
use bap_onest_lite::json::{Decimal, Json};
use bap_onest_lite::sweep::{
    attach_embeddings, close_provider, describe_sweep, embedding_tasks, first_sweep_message,
    handle_cron_on_search, merge_items_into, merge_payload, next_page_request, next_step,
    read_pagination, set_page, sweep_complete, sweep_page_limit, Pagination, ProviderProgress,
    SweepStep,
};

fn obj(fields: Vec<(&str, Json)>) -> Json {
    Json::Object(fields.into_iter().map(|(k, v)| (k.to_string(), v)).collect())
}

fn rule(name: &str, path: &str) -> MetaDataMatch {
    MetaDataMatch {
        name: name.to_string(),
        profile_path: format!("/metadata{}", path),
        job_path: path.to_string(),
        job_path_min: None,
        job_path_max: None,
        weight: None,
        is_array: false,
        match_mode: MatchMode::Embed,
        penalty: Decimal::parse("0.5").unwrap(),
        bonus: None,
    }
}

fn config_with(rules: Vec<MetaDataMatch>) -> AppConfig {
    AppConfig {
        debug: false,
        bap: Bap {
            id: "bap-1".to_string(),
            caller_uri: "http://adapter".to_string(),
            bap_uri: "http://bap".to_string(),
            domain: "jobs".to_string(),
            version: "1.1.0".to_string(),
            ttl: "PT30S".to_string(),
        },
        bpp: Bpp { id: "b".to_string(), caller_uri: "c".to_string(), catalog_name: "n".to_string() },
        http: HttpConfig { address: "a".to_string(), port: "1".to_string() },
        redis: RedisConfig { url: "r".to_string() },
        db: DbConfig { url: "d".to_string() },
        cache: CacheConfig { result_ttl_secs: 300, txn_ttl_secs: 120, throttle_secs: 60 },
        cron: CronConfig {
            fetch_jobs: JobSchedule { seconds: 60 },
            fetch_profiles: JobSchedule { seconds: 60 },
            compute_match_scores: MatchScoreConfig { source: "s".to_string(), batch: 2 },
            notification: NotificationConfig {
                min_score: 70,
                batch: 2,
                schedule: NotificationSchedule {
                    schedule_type: ScheduleType::Monthly,
                    weekday: None,
                    day: None,
                    hour: 1,
                    minute: 2,
                    seconds: 3,
                },
            },
        },
        gcp: GcpConfig { project_id: "p".to_string(), model: "m".to_string(), auth_token: "t".to_string() },
        match_score_path: "x".to_string(),
        metadata_match: rules,
        services: ServicesConfig {
            seeker: BackendServiceConfig { base_url: "s".to_string(), api_key: "k".to_string() },
            notification: NotificationServiceConfig {
                base_url: "n".to_string(),
                content_sid: "c".to_string(),
                ns_key_id: "i".to_string(),
                ns_secret: "s".to_string(),
            },
        },
        auth: AuthConfig { x_api_key: "k".to_string() },
    }
}

fn item(id: &str, role: &str) -> Json {
    obj(vec![("id", Json::text(id)), ("tags", obj(vec![("role", Json::text(role))]))])
}

fn provider(name: &str, items: Vec<Json>) -> Json {
    obj(vec![
        ("descriptor", obj(vec![("name", Json::text(name))])),
        ("items", Json::Array(items)),
    ])
}

fn page_payload(providers: Vec<Json>, page: i64, limit: i64, total: Json) -> Json {
    obj(vec![
        ("context", obj(vec![("bpp_id", Json::text("bpp-C")), ("transaction_id", Json::text("cron-1"))])),
        (
            "message",
            obj(vec![
                ("catalog", obj(vec![("providers", Json::Array(providers))])),
                ("intent", obj(vec![("category", Json::text("jobs"))])),
                (
                    "pagination",
                    obj(vec![("page", Json::Int(page)), ("limit", Json::Int(limit)), ("totalCount", total)]),
                ),
            ]),
        ),
    ])
}

fn item_ids(doc: &Json) -> Vec<String> {
    let mut ids = vec![];
    for p in doc.pointer("/message/catalog/providers").unwrap().as_array().unwrap() {
        for i in p.get("items").unwrap().as_array().unwrap() {
            ids.push(i.get("id").unwrap().as_str().unwrap().to_string());
        }
    }
    ids
}

#[test]
fn pagination_defaults_and_string_total() {
    let p = read_pagination(&obj(vec![("message", obj(vec![]))]));
    assert_eq!(p, Pagination { page: 1, limit: 30, total_count: 0 });
    let doc = page_payload(vec![], 2, 30, Json::text("65"));
    assert_eq!(read_pagination(&doc), Pagination { page: 2, limit: 30, total_count: 65 });
    let doc = page_payload(vec![], 2, 30, Json::text("6x"));
    assert_eq!(read_pagination(&doc).total_count, 0);
    let doc = page_payload(vec![], 2, 30, Json::Real(Decimal::parse("65.5").unwrap()));
    assert_eq!(read_pagination(&doc).total_count, 0);
    let doc = page_payload(vec![], 2, 30, Json::UInt(u64::MAX));
    assert_eq!(read_pagination(&doc).total_count, 0);
}

#[test]
fn next_step_asks_for_pages_while_items_are_left() {
    assert_eq!(next_step(&Pagination { page: 1, limit: 30, total_count: 65 }), SweepStep::NextPage(2));
    assert_eq!(next_step(&Pagination { page: 2, limit: 30, total_count: 65 }), SweepStep::NextPage(3));
    assert_eq!(next_step(&Pagination { page: 3, limit: 30, total_count: 65 }), SweepStep::Complete);
    assert_eq!(next_step(&Pagination { page: 2, limit: 30, total_count: 60 }), SweepStep::Complete);
    assert_eq!(next_step(&Pagination { page: 1, limit: 30, total_count: 0 }), SweepStep::Complete);
    assert_eq!(
        next_step(&Pagination { page: i64::MAX, limit: 0, total_count: 5 }),
        SweepStep::Complete
    );
    assert_eq!(
        next_step(&Pagination { page: i64::MAX, limit: i64::MAX, total_count: i64::MAX }),
        SweepStep::Complete
    );
    assert_eq!(
        next_step(&Pagination { page: -1, limit: 30, total_count: 0 }),
        SweepStep::NextPage(0)
    );
}

#[test]
fn merge_items_appends_new_and_refreshes_known_embeddings() {
    let stored = vec![
        obj(vec![("id", Json::text("a")), ("embedding", Json::Int(1)), ("x", Json::Int(9))]),
        obj(vec![("id", Json::text("b"))]),
    ];
    let incoming = vec![
        obj(vec![("id", Json::text("a")), ("embedding", Json::Int(2)), ("x", Json::Int(0))]),
        obj(vec![("id", Json::text("c"))]),
        obj(vec![("id", Json::text("b"))]),
        obj(vec![("name", Json::text("no id"))]),
        obj(vec![("id", Json::text("c")), ("embedding", Json::Int(3))]),
    ];
    let merged = merge_items_into(stored, &incoming);
    let texts: Vec<String> = merged.iter().map(render).collect();
    assert_eq!(
        texts,
        vec![
            "{\"embedding\":2,\"id\":\"a\",\"x\":9}",
            "{\"id\":\"b\"}",
            "{\"embedding\":3,\"id\":\"c\"}",
            "{\"name\":\"no id\"}",
        ]
    );
}

#[test]
fn merge_payload_merges_by_provider_name() {
    let stored = page_payload(vec![provider("Acme", vec![item("1", "r")])], 1, 30, Json::Int(3));
    let incoming = page_payload(
        vec![provider("Acme", vec![item("1", "r"), item("2", "r")]), provider("Bolt", vec![item("3", "r")])],
        2,
        30,
        Json::Int(3),
    );
    let merged = merge_payload(stored, &incoming);
    assert_eq!(item_ids(&merged), vec!["1", "2", "3"]);
    assert_eq!(merged.pointer("/message/catalog/providers").unwrap().as_array().unwrap().len(), 2);
    assert_eq!(merged.pointer("/message/pagination/page").unwrap().as_i64(), Some(1));
    let no_providers = obj(vec![("message", obj(vec![]))]);
    let same = merge_payload(page_payload(vec![], 1, 1, Json::Int(0)), &no_providers);
    assert_eq!(render(&same), render(&page_payload(vec![], 1, 1, Json::Int(0))));
}

#[test]
fn cron_pagination_gathers_all_pages() {
    let cfg = config_with(vec![rule("role", "/tags/role")]);
    let mut stored: Option<Json> = None;
    let mut requested_pages = vec![1i64];
    let mut completed = false;
    let mut progress: Vec<ProviderProgress> = Vec::new();
    let mut latest: Option<&str> = None;
    for page in 1..=3i64 {
        let from = (page - 1) * 30;
        let count = if page < 3 { 30 } else { 5 };
        let items: Vec<Json> =
            (from..from + count).map(|n| item(&format!("job-{}", n), "Driver")).collect();
        let payload = page_payload(vec![provider("Acme", items)], page, 30, Json::Int(65));
        let tasks = embedding_tasks(stored.as_ref(), &payload, &cfg);
        assert_eq!(tasks.len(), count as usize);
        let mut table: Vec<Vec<Option<Json>>> = vec![(0..count).map(|_| None).collect()];
        for t in &tasks {
            assert_eq!(t.text, "Driver");
            table[t.provider][t.item] = Some(Json::Array(vec![Json::Int(t.item as i64)]));
        }
        let payload = attach_embeddings(payload, &table);
        let update = handle_cron_on_search(stored.take(), &payload);
        assert_eq!(update.bpp_id.as_deref(), Some("bpp-C"));
        assert_eq!(update.bpp_uri, None);
        let request = next_page_request(&cfg, "cron-1", "msg-9", &update, "T");
        assert_eq!(request.is_some(), page < 3);
        if let Some(request) = &request {
            assert_eq!(request.pointer("/context/transaction_id").unwrap().as_str(), Some("cron-1"));
            assert_eq!(request.pointer("/context/bpp_id").unwrap().as_str(), Some("bpp-C"));
            assert_eq!(request.pointer("/context/action").unwrap().as_str(), Some("search"));
            assert_eq!(request.pointer("/context/bpp_uri"), None);
            assert_eq!(
                request.pointer("/message/pagination/page").unwrap().as_i64(),
                Some(page + 1)
            );
        }
        if close_provider(&mut progress, "bpp-C", update.step) {
            latest = Some("cron-1");
        }
        assert_eq!(latest.is_some(), page == 3);
        match update.step {
            SweepStep::NextPage(next) => {
                requested_pages.push(next);
                let message = update.next_message.as_ref().unwrap();
                assert_eq!(message.pointer("/pagination/page").unwrap().as_i64(), Some(next));
                assert_eq!(message.pointer("/pagination/limit").unwrap().as_i64(), Some(30));
                assert_eq!(message.pointer("/intent/category").unwrap().as_str(), Some("jobs"));
                assert_eq!(
                    message.pointer("/intent/item/tags/0/list/0/value").unwrap().as_str(),
                    Some("open")
                );
                assert_eq!(message.pointer("/options/brief"), Some(&Json::Bool(false)));
                assert_eq!(
                    update.stored.pointer("/message/pagination/page").unwrap().as_i64(),
                    Some(next)
                );
            }
            SweepStep::Complete => {
                assert!(update.next_message.is_none());
                completed = true;
            }
        }
        stored = Some(update.stored);
        if page < 3 {
            assert!(!completed);
        }
    }
    assert!(completed);
    assert_eq!(requested_pages, vec![1, 2, 3]);
    let stored = stored.unwrap();
    let ids = item_ids(&stored);
    assert_eq!(ids.len(), 65);
    let mut unique = ids.clone();
    unique.sort();
    unique.dedup();
    assert_eq!(unique.len(), 65);
    for p in stored.pointer("/message/catalog/providers").unwrap().as_array().unwrap() {
        for i in p.get("items").unwrap().as_array().unwrap() {
            assert!(i.get("embedding").is_some());
        }
    }
}

#[test]
fn repeated_callback_adds_nothing() {
    let payload = page_payload(vec![provider("Acme", vec![item("1", "r"), item("2", "r")])], 1, 30, Json::Int(2));
    let first = handle_cron_on_search(None, &payload);
    assert_eq!(first.step, SweepStep::Complete);
    assert_eq!(item_ids(&first.stored), vec!["1", "2"]);
    let second = handle_cron_on_search(Some(first.stored), &payload);
    assert_eq!(item_ids(&second.stored), vec!["1", "2"]);
}

#[test]
fn embedding_tasks_skip_known_items_and_blank_texts() {
    let cfg = config_with(vec![rule("role", "/tags/role")]);
    let stored = page_payload(vec![provider("Acme", vec![item("1", "Driver")])], 1, 30, Json::Int(9));
    let payload = page_payload(
        vec![
            provider("Acme", vec![item("1", "Driver"), item("2", "Cook"), item("3", "  ")]),
            provider("Other", vec![item("1", "Nurse"), obj(vec![("id", Json::text("9"))])]),
        ],
        2,
        30,
        Json::Int(9),
    );
    let tasks = embedding_tasks(Some(&stored), &payload, &cfg);
    let places: Vec<(usize, usize, &str)> =
        tasks.iter().map(|t| (t.provider, t.item, t.text.as_str())).collect();
    assert_eq!(places, vec![(0, 1, "Cook"), (1, 0, "Nurse")]);
    let all = embedding_tasks(None, &payload, &cfg);
    assert_eq!(all.len(), 3);
    assert!(embedding_tasks(None, &Json::Null, &cfg).is_empty());
}

#[test]
fn attach_embeddings_sets_only_given_entries() {
    let payload = page_payload(vec![provider("Acme", vec![item("1", "a"), item("2", "b")])], 1, 30, Json::Int(2));
    let table = vec![vec![None, Some(Json::Array(vec![Json::Real(Decimal::parse("0.25").unwrap())]))]];
    let out = attach_embeddings(payload, &table);
    let items = out.pointer("/message/catalog/providers/0/items").unwrap().as_array().unwrap();
    assert!(items[0].get("embedding").is_none());
    assert_eq!(render(items[1].get("embedding").unwrap()), "[0.25]");
    assert_eq!(render(&attach_embeddings(Json::Int(1), &table)), "1");
}

#[test]
fn set_page_needs_a_pagination() {
    let doc = page_payload(vec![], 1, 30, Json::Int(65));
    assert_eq!(set_page(doc, 2).pointer("/message/pagination/page").unwrap().as_i64(), Some(2));
    let bare = obj(vec![("message", obj(vec![]))]);
    assert_eq!(render(&set_page(bare, 2)), "{\"message\":{}}");
}

#[test]
fn first_sweep_message_asks_for_open_jobs() {
    assert_eq!(sweep_page_limit(), 1000);
    let message = first_sweep_message(sweep_page_limit());
    assert_eq!(
        render(&message),
        "{\"intent\":{\"item\":{\"tags\":[{\"descriptor\":{\"code\":\"status\",\"name\":\"Status\"},\"list\":[{\"descriptor\":{\"code\":\"status\",\"name\":\"Status\"},\"value\":\"open\"}]}]}},\"options\":{\"brief\":false},\"pagination\":{\"limit\":1000,\"page\":1}}"
    );
    assert_eq!(
        render(&describe_sweep("T")),
        "{\"all_jobs\":true,\"brief\":false,\"source\":\"cron\",\"timestamp\":\"T\"}"
    );
}

#[test]
fn latest_sweep_waits_for_every_provider_that_replied() {
    let mut progress: Vec<ProviderProgress> = Vec::new();
    assert!(sweep_complete(&progress));
    assert!(!close_provider(&mut progress, "bpp-1", SweepStep::NextPage(2)));
    assert!(!close_provider(&mut progress, "bpp-2", SweepStep::NextPage(2)));
    assert!(!close_provider(&mut progress, "bpp-1", SweepStep::Complete));
    assert_eq!(progress.len(), 2);
    assert_eq!((progress[0].bpp_id.as_str(), progress[0].complete), ("bpp-1", true));
    assert_eq!((progress[1].bpp_id.as_str(), progress[1].complete), ("bpp-2", false));
    assert!(!close_provider(&mut progress, "bpp-2", SweepStep::NextPage(3)));
    assert!(close_provider(&mut progress, "bpp-2", SweepStep::Complete));
    assert!(sweep_complete(&progress));
    assert!(!close_provider(&mut progress, "bpp-3", SweepStep::NextPage(2)));
    assert!(close_provider(&mut progress, "bpp-3", SweepStep::Complete));
}

#[test]
fn next_page_is_asked_of_the_provider_that_replied() {
    let cfg = config_with(vec![]);
    let mut payload = page_payload(vec![provider("Acme", vec![item("1", "r")])], 1, 1, Json::Int(2));
    payload = payload.with_field(
        "context",
        obj(vec![
            ("bpp_id", Json::text("bpp-C")),
            ("bpp_uri", Json::text("http://bpp-c")),
            ("transaction_id", Json::text("cron-1")),
        ]),
    );
    let update = handle_cron_on_search(None, &payload);
    assert_eq!(update.step, SweepStep::NextPage(2));
    assert_eq!(update.bpp_uri.as_deref(), Some("http://bpp-c"));
    let request = next_page_request(&cfg, "cron-1", "msg-2", &update, "T").unwrap();
    assert_eq!(request.pointer("/context/bpp_id").unwrap().as_str(), Some("bpp-C"));
    assert_eq!(request.pointer("/context/bpp_uri").unwrap().as_str(), Some("http://bpp-c"));
    assert_eq!(request.pointer("/context/message_id").unwrap().as_str(), Some("msg-2"));
    assert_eq!(request.pointer("/context/timestamp").unwrap().as_str(), Some("T"));
    let done = handle_cron_on_search(
        Some(update.stored),
        &page_payload(vec![provider("Acme", vec![item("2", "r")])], 2, 1, Json::Int(2)),
    );
    assert_eq!(done.step, SweepStep::Complete);
    assert!(next_page_request(&cfg, "cron-1", "msg-3", &done, "T").is_none());
}
