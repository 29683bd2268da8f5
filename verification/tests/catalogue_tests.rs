use bap_onest_lite::config::{
    AppConfig, AuthConfig, BackendServiceConfig, Bap, Bpp, CacheConfig, CronConfig, DbConfig,
    GcpConfig, HttpConfig, JobSchedule, MatchScoreConfig, NotificationConfig,
    NotificationSchedule, NotificationServiceConfig, RedisConfig, ScheduleType,
    ServicesConfig,
};
use bap_onest_lite::catalogue::{Jobs, NewJob, NewProfile, Profiles};
use bap_onest_lite::codec::render;
use bap_onest_lite::json::Json;
use bap_onest_lite::matches::{
    batches_of, calculate_match_score, compute_and_upsert, effective_batch,
    fetch_missing_matches, fetch_new_jobs, fetch_new_profiles, fetch_stale_matches,
    match_is_fresh, pairs_for_new_jobs, pairs_for_new_profiles, pairs_for_stale,
    process_new_jobs, process_new_profiles, recompute_stale_matches,
    reconcile_missing_matches, JobLiteRow, JobRow, Matches, Pair, ProfileLiteRow, ProfileRow,
};
use bap_onest_lite::sync::{
    after_page, build_beckn_structure, build_profiles_catalog, compute_profile_hash,
    extract_pagination, profile_by_id_url, profile_page_url, profile_window, sweep_end,
    sweep_page_size, sync_profiles_in_memory, to_new_profile, ApiProfile, PageOutcome,
    PageRequest, PageResult, SweepNext,
};

fn obj(fields: Vec<(&str, Json)>) -> Json {
    Json::Object(fields.into_iter().map(|(k, v)| (k.to_string(), v)).collect())
}

fn new_job(job: &str, provider: &str, bpp: &str, txn: &str, hash: &str, blob: i64) -> NewJob {
    NewJob {
        job_id: job.to_string(),
        provider_id: provider.to_string(),
        transaction_id: txn.to_string(),
        bpp_id: bpp.to_string(),
        bpp_uri: format!("http://{}", bpp),
        metadata: Some(Json::Int(blob)),
        beckn_structure: Some(Json::Int(blob)),
        hash: hash.to_string(),
        last_synced_at: Some(blob),
    }
}

fn api_profile(id: &str, name: &str) -> ApiProfile {
    ApiProfile {
        id: id.to_string(),
        user_id: "u1".to_string(),
        kind: "seeker".to_string(),
        metadata: obj(vec![("name", Json::text(name))]),
        created_at: "2024-01-01".to_string(),
        updated_at: "2024-02-02".to_string(),
    }
}

fn jl(id: &str, hash: &str) -> JobLiteRow {
    JobLiteRow { id: id.to_string(), hash: hash.to_string() }
}

fn pl(id: &str, hash: &str) -> ProfileLiteRow {
    ProfileLiteRow { id: id.to_string(), hash: hash.to_string() }
}

fn pairs(list: &Vec<Pair>) -> Vec<(String, String)> {
    list.iter().map(|p| (p.job_id.clone(), p.profile_id.clone())).collect()
}

fn pp(list: &[(&str, &str)]) -> Vec<(String, String)> {
    list.iter().map(|(a, b)| (a.to_string(), b.to_string())).collect()
}

#[test]
fn jobs_change_only_when_the_hash_differs() {
    let mut jobs = Jobs::new();
    jobs.store_job(new_job("j1", "p1", "bpp-A", "cron-1", "h1", 1), 10);
    jobs.store_job(new_job("j1", "p2", "bpp-A", "cron-1", "h1", 2), 11);
    assert_eq!(jobs.rows.len(), 2);
    jobs.store_job(new_job("j1", "p1", "bpp-A", "cron-2", "h1", 3), 20);
    assert_eq!(jobs.rows.len(), 2);
    let row = &jobs.rows[0];
    assert_eq!(row.job.transaction_id, "cron-2");
    assert_eq!(row.job.last_synced_at, Some(3));
    assert_eq!(row.updated_at, 20);
    assert_eq!(row.job.beckn_structure, Some(Json::Int(1)));
    assert_eq!(row.job.metadata, Some(Json::Int(1)));
    jobs.store_job(new_job("j1", "p1", "bpp-A", "cron-3", "h2", 4), 30);
    let row = &jobs.rows[0];
    assert_eq!(row.job.hash, "h2");
    assert_eq!(row.job.beckn_structure, Some(Json::Int(4)));
    assert_eq!(row.job.transaction_id, "cron-3");
}

#[test]
fn stale_jobs_of_a_provider_are_pruned() {
    let mut jobs = Jobs::new();
    jobs.store_job(new_job("j1", "p", "bpp-X", "cron-1", "h", 1), 1);
    jobs.store_job(new_job("j2", "p", "bpp-X", "cron-2", "h", 1), 1);
    jobs.store_job(new_job("j3", "p", "bpp-Y", "cron-1", "h", 1), 1);
    jobs.store_job(new_job("j4", "p", "bpp-X", "cron-0", "h", 1), 1);
    assert_eq!(jobs.delete_stale_jobs("bpp-X", "cron-2"), 2);
    let left: Vec<&str> = jobs.rows.iter().map(|r| r.job.job_id.as_str()).collect();
    assert_eq!(left, vec!["j2", "j3"]);
    for r in &jobs.rows {
        assert!(!(r.job.bpp_id == "bpp-X" && r.job.transaction_id != "cron-2"));
    }
    assert_eq!(jobs.delete_stale_jobs("bpp-X", "cron-2"), 0);
    assert_eq!(jobs.delete_stale_jobs("bpp-Z", "cron-2"), 0);
}

#[test]
fn profiles_are_upserted_by_hash() {
    let mut profiles = Profiles::new();
    let p = |hash: &str, user: &str, at: i64| NewProfile {
        profile_id: "p1".to_string(),
        user_id: user.to_string(),
        kind: "seeker".to_string(),
        metadata: None,
        beckn_structure: None,
        hash: hash.to_string(),
        last_synced_at: at,
    };
    profiles.store_profile(p("h1", "u1", 100), 100);
    profiles.store_profile(p("h1", "u2", 200), 201);
    assert_eq!(profiles.rows.len(), 1);
    assert_eq!(profiles.rows[0].profile.user_id, "u1");
    assert_eq!(profiles.rows[0].profile.last_synced_at, 200);
    assert_eq!(profiles.rows[0].updated_at, 100);
    profiles.store_profile(p("h2", "u2", 300), 301);
    assert_eq!(profiles.rows[0].profile.user_id, "u2");
    assert_eq!(profiles.rows[0].updated_at, 301);
    assert_eq!(profiles.delete_stale_profiles(300), 0);
    assert_eq!(profiles.delete_stale_profiles(301), 1);
    assert!(profiles.rows.is_empty());
}

#[test]
fn full_sweep_leaves_only_profiles_it_has_seen() {
    let mut profiles = Profiles::new();
    profiles.store_profile(to_new_profile(&api_profile("old", "Old"), 50), 50);
    profiles.store_profile(to_new_profile(&api_profile("p1", "Asha"), 50), 50);
    let pages = vec![
        PageResult::Page { data: vec![api_profile("p1", "Asha"), api_profile("p2", "Bala")], total_count: 3 },
        PageResult::Page { data: vec![api_profile("p3", "Chitra")], total_count: 3 },
    ];
    assert!(sync_profiles_in_memory(&mut profiles, &pages, 2, 100, 101));
    let ids: Vec<&str> = profiles.rows.iter().map(|r| r.profile.profile_id.as_str()).collect();
    assert_eq!(ids, vec!["p1", "p2", "p3"]);
    for r in &profiles.rows {
        assert!(r.profile.last_synced_at >= 100);
    }
    assert_eq!(profiles.rows[0].updated_at, 50);
}

#[test]
fn failed_sweep_skips_the_clean_up() {
    let mut profiles = Profiles::new();
    profiles.store_profile(to_new_profile(&api_profile("old", "Old"), 50), 50);
    let pages = vec![
        PageResult::Page { data: vec![api_profile("p1", "Asha")], total_count: 5 },
        PageResult::Failed,
    ];
    assert!(!sync_profiles_in_memory(&mut profiles, &pages, 1, 100, 101));
    let ids: Vec<&str> = profiles.rows.iter().map(|r| r.profile.profile_id.as_str()).collect();
    assert_eq!(ids, vec!["old", "p1"]);
    let mut short = Profiles::new();
    let pages = vec![PageResult::Page { data: vec![api_profile("p1", "Asha")], total_count: 5 }];
    assert!(!sync_profiles_in_memory(&mut short, &pages, 1, 100, 101));
    let mut empty = Profiles::new();
    empty.store_profile(to_new_profile(&api_profile("old", "Old"), 50), 50);
    let pages = vec![PageResult::Page { data: vec![], total_count: 0 }];
    assert!(sync_profiles_in_memory(&mut empty, &pages, 100, 100, 101));
    assert!(empty.rows.is_empty());
}

#[test]
fn sweep_paging_rules() {
    assert_eq!(sweep_page_size(), 100);
    assert_eq!(after_page(1, 100, PageOutcome::FetchFailed), SweepNext::Finish { completed: false });
    assert_eq!(after_page(1, 100, PageOutcome::StoreFailed), SweepNext::Finish { completed: false });
    assert_eq!(after_page(1, 100, PageOutcome::Empty), SweepNext::Finish { completed: true });
    assert_eq!(after_page(1, 100, PageOutcome::Stored { total_count: 250 }), SweepNext::Fetch(2));
    assert_eq!(after_page(2, 100, PageOutcome::Stored { total_count: 250 }), SweepNext::Fetch(3));
    assert_eq!(
        after_page(3, 100, PageOutcome::Stored { total_count: 250 }),
        SweepNext::Finish { completed: true }
    );
    assert_eq!(
        after_page(u32::MAX, 0, PageOutcome::Stored { total_count: 250 }),
        SweepNext::Finish { completed: true }
    );
    let end = sweep_end(true);
    assert!(end.delete_stale && end.trigger_scoring);
    let end = sweep_end(false);
    assert!(!end.delete_stale && !end.trigger_scoring);
}

#[test]
fn profile_rows_carry_hash_and_catalogue_item() {
    let p = api_profile("p1", "Asha");
    assert_eq!(
        compute_profile_hash(&p),
        "17ed871c294e8e1704aac6dffd6f78dc3186a7c7671eef536a9949f0b7500ef3"
    );
    let row = to_new_profile(&p, 77);
    assert_eq!(row.hash, compute_profile_hash(&p));
    assert_eq!(row.last_synced_at, 77);
    assert_eq!(
        render(row.beckn_structure.as_ref().unwrap()),
        "{\"descriptor\":{\"name\":\"Asha\"},\"id\":\"p1\",\"tags\":{\"profile\":{\"name\":\"Asha\"}}}"
    );
    assert_eq!(
        render(&build_beckn_structure("p2", &Json::Null)),
        "{\"descriptor\":{\"name\":\"unknown\"},\"id\":\"p2\",\"tags\":{\"profile\":null}}"
    );
    let mut changed = api_profile("p1", "Asha");
    changed.updated_at = "2024-03-03".to_string();
    assert_ne!(compute_profile_hash(&changed), compute_profile_hash(&p));
}

#[test]
fn profile_urls_and_windows() {
    assert_eq!(profile_page_url("http://s", 3, 100), "http://s/profile/all?page=3&limit=100");
    assert_eq!(
        profile_by_id_url("http://s", "p-9"),
        "http://s/profile/all?profileId=p-9&page=1&limit=30"
    );
    let message = obj(vec![("pagination", obj(vec![("page", Json::Int(3)), ("limit", Json::Int(20))]))]);
    assert_eq!(extract_pagination(&message), PageRequest { page: Some(3), limit: Some(20) });
    assert_eq!(extract_pagination(&Json::Null), PageRequest { page: None, limit: None });
    let wide = obj(vec![("pagination", obj(vec![("page", Json::Int(4294967297)), ("limit", Json::Int(-1))]))]);
    assert_eq!(extract_pagination(&wide), PageRequest { page: Some(1), limit: None });
    assert_eq!(profile_window(&PageRequest { page: Some(3), limit: Some(20) }), (20, 40));
    assert_eq!(profile_window(&PageRequest { page: None, limit: None }), (10, 0));
    assert_eq!(profile_window(&PageRequest { page: Some(0), limit: Some(0) }), (1, 0));
}

#[test]
fn profiles_catalog_layout() {
    let cfg = config();
    let out = build_profiles_catalog(vec![Json::Int(1), Json::Int(2)], &cfg, 2, 10, 12);
    assert_eq!(
        render(&out),
        "{\"catalog\":{\"providers\":[{\"descriptor\":{\"name\":\"Profiles\"},\"id\":\"bpp-self\",\"items\":[1,2]}]},\"pagination\":{\"limit\":10,\"page\":2,\"total\":12}}"
    );
}

fn config() -> AppConfig {
    AppConfig {
        debug: false,
        bap: Bap {
            id: "bap-1".to_string(),
            caller_uri: "http://adapter".to_string(),
            bap_uri: "http://bap".to_string(),
            domain: "jobs".to_string(),
            version: "1.1.0".to_string(),
            ttl: "PT30S".to_string(),
        },
        bpp: Bpp {
            id: "bpp-self".to_string(),
            caller_uri: "http://bpp-adapter/".to_string(),
            catalog_name: "Profiles".to_string(),
        },
        http: HttpConfig { address: "a".to_string(), port: "1".to_string() },
        redis: RedisConfig { url: "r".to_string() },
        db: DbConfig { url: "d".to_string() },
        cache: CacheConfig { result_ttl_secs: 300, txn_ttl_secs: 120, throttle_secs: 60 },
        cron: CronConfig {
            fetch_jobs: JobSchedule { seconds: 60 },
            fetch_profiles: JobSchedule { seconds: 60 },
            compute_match_scores: MatchScoreConfig { source: "s".to_string(), batch: 2 },
            notification: NotificationConfig {
                min_score: 70,
                batch: 2,
                schedule: NotificationSchedule {
                    schedule_type: ScheduleType::Monthly,
                    weekday: None,
                    day: None,
                    hour: 1,
                    minute: 2,
                    seconds: 3,
                },
            },
        },
        gcp: GcpConfig { project_id: "p".to_string(), model: "m".to_string(), auth_token: "t".to_string() },
        match_score_path: "x".to_string(),
        metadata_match: vec![],
        services: ServicesConfig {
            seeker: BackendServiceConfig { base_url: "s".to_string(), api_key: "k".to_string() },
            notification: NotificationServiceConfig {
                base_url: "n".to_string(),
                content_sid: "c".to_string(),
                ns_key_id: "i".to_string(),
                ns_secret: "s".to_string(),
            },
        },
        auth: AuthConfig { x_api_key: "k".to_string() },
    }
}

#[test]
fn match_staleness_follows_the_hashes() {
    let mut matches = Matches::new();
    matches.upsert_match_score("j", "p", "JH", "H1", 70, None, 1000);
    assert_eq!(matches.rows.len(), 1);
    assert!(match_is_fresh(&matches.rows[0], "JH", "H1"));
    assert!(!match_is_fresh(&matches.rows[0], "JH", "H2"));
    assert!(!match_is_fresh(&matches.rows[0], "JX", "H1"));
    let jobs = vec![jl("j", "JH")];
    let profiles = vec![pl("p", "H2")];
    let stale = fetch_stale_matches(&matches, &jobs, &profiles);
    assert_eq!(stale.len(), 1);
    assert_eq!(stale[0].profile_hash, "H1");
    assert_eq!(stale[0].current_profile_hash, "H2");
    assert_eq!(stale[0].current_job_hash, "JH");
    let job = JobRow { id: "j".to_string(), hash: "JH".to_string(), metadata: None, beckn_structure: None };
    let profile = ProfileRow { id: "p".to_string(), hash: "H2".to_string(), metadata: None, beckn_structure: None };
    compute_and_upsert(&mut matches, &job, &profile, 55, Some(Json::Int(1)), 2000);
    assert_eq!(matches.rows.len(), 1);
    let row = &matches.rows[0];
    assert_eq!(row.profile_hash, "H2");
    assert_eq!(row.match_score, 55);
    assert_eq!(row.computed_at, 1000);
    assert_eq!(row.updated_at, 2000);
    assert!(row.updated_at > row.computed_at);
    assert!(fetch_stale_matches(&matches, &jobs, &profiles).is_empty());
}

#[test]
fn stale_list_needs_both_sides() {
    let mut matches = Matches::new();
    matches.upsert_match_score("j1", "p1", "a", "b", 1, None, 1);
    matches.upsert_match_score("j2", "p1", "a", "b", 1, None, 1);
    matches.upsert_match_score("j1", "gone", "x", "x", 1, None, 1);
    let jobs = vec![jl("j1", "a"), jl("j2", "changed")];
    let profiles = vec![pl("p1", "b")];
    let stale = fetch_stale_matches(&matches, &jobs, &profiles);
    assert_eq!(pairs(&pairs_for_stale(&stale)), pp(&[("j2", "p1")]));
}

#[test]
fn work_lists_of_a_pass() {
    let mut matches = Matches::new();
    matches.upsert_match_score("j1", "p1", "a", "b", 1, None, 1);
    let jobs = vec![jl("j1", "a"), jl("j2", "a"), jl("j3", "a")];
    let profiles = vec![pl("p1", "b"), pl("p2", "b")];
    let new_jobs = fetch_new_jobs(&jobs, &matches);
    assert_eq!(new_jobs.iter().map(|j| j.id.as_str()).collect::<Vec<_>>(), vec!["j2", "j3"]);
    let new_profiles = fetch_new_profiles(&profiles, &matches);
    assert_eq!(new_profiles.iter().map(|j| j.id.as_str()).collect::<Vec<_>>(), vec!["p2"]);
    assert_eq!(
        pairs(&pairs_for_new_jobs(&new_jobs, &profiles)),
        pp(&[("j2", "p1"), ("j2", "p2"), ("j3", "p1"), ("j3", "p2")])
    );
    assert_eq!(
        pairs(&pairs_for_new_profiles(&new_profiles, &jobs)),
        pp(&[("j1", "p2"), ("j2", "p2"), ("j3", "p2")])
    );
    assert_eq!(
        pairs(&fetch_missing_matches(&jobs, &profiles, &matches)),
        pp(&[("j1", "p2"), ("j2", "p1"), ("j2", "p2"), ("j3", "p1"), ("j3", "p2")])
    );
}

#[test]
fn plan_batches_each_list() {
    let mut matches = Matches::new();
    matches.upsert_match_score("j1", "p1", "old", "b", 1, None, 1);
    let jobs = vec![jl("j1", "a"), jl("j2", "a")];
    let profiles = vec![pl("p1", "b"), pl("p2", "b"), pl("p3", "b")];
    let plan = calculate_match_score(&jobs, &profiles, &matches, 2);
    assert_eq!(plan.stale.len(), 1);
    assert_eq!(pairs(&plan.stale[0]), pp(&[("j1", "p1")]));
    let sizes: Vec<usize> = plan.new_jobs.iter().map(|b| b.len()).collect();
    assert_eq!(sizes, vec![2, 1]);
    assert_eq!(pairs(&plan.new_jobs[1]), pp(&[("j2", "p3")]));
    let sizes: Vec<usize> = plan.new_profiles.iter().map(|b| b.len()).collect();
    assert_eq!(sizes, vec![2, 2]);
    let sizes: Vec<usize> = plan.missing.iter().map(|b| b.len()).collect();
    assert_eq!(sizes, vec![2, 2, 1]);
    let plan = calculate_match_score(&jobs, &profiles, &matches, 0);
    assert_eq!(plan.missing.len(), 5);
    assert_eq!(effective_batch(0), 1);
    assert_eq!(effective_batch(7), 7);
    assert!(batches_of(vec![], 3).is_empty());
}

#[test]
fn reconciliation_covers_every_pair_once() {
    let mut matches = Matches::new();
    let jobs = vec![jl("j1", "a"), jl("j2", "a")];
    let profiles = vec![pl("p1", "b"), pl("p2", "b")];
    matches.upsert_match_score("j2", "p1", "a", "b", 9, None, 1);
    for pair in fetch_missing_matches(&jobs, &profiles, &matches) {
        matches.upsert_match_score(&pair.job_id, &pair.profile_id, "a", "b", 0, None, 2);
    }
    assert_eq!(matches.rows.len(), 4);
    assert!(fetch_missing_matches(&jobs, &profiles, &matches).is_empty());
    assert!(fetch_new_jobs(&jobs, &matches).is_empty());
    assert!(fetch_new_profiles(&profiles, &matches).is_empty());
    assert_eq!(matches.find("j2", "p1"), 0);
    assert_eq!(matches.rows[0].match_score, 9);
    assert_eq!(matches.find("nope", "p1"), 4);
}

#[test]
fn each_pass_lists_its_own_pairs() {
    let mut matches = Matches::new();
    matches.upsert_match_score("j1", "p1", "old", "b", 1, None, 1);
    let jobs = vec![jl("j1", "a"), jl("j2", "a")];
    let profiles = vec![pl("p1", "b"), pl("p2", "b")];
    let stale = recompute_stale_matches(&jobs, &profiles, &matches, 5);
    assert_eq!(stale.len(), 1);
    assert_eq!(pairs(&stale[0]), pp(&[("j1", "p1")]));
    let new_jobs = process_new_jobs(&jobs, &profiles, &matches, 5);
    assert_eq!(new_jobs.len(), 1);
    assert_eq!(pairs(&new_jobs[0]), pp(&[("j2", "p1"), ("j2", "p2")]));
    let new_profiles = process_new_profiles(&jobs, &profiles, &matches, 1);
    assert_eq!(new_profiles.len(), 2);
    assert_eq!(pairs(&new_profiles[0]), pp(&[("j1", "p2")]));
    assert_eq!(pairs(&new_profiles[1]), pp(&[("j2", "p2")]));
    let missing = reconcile_missing_matches(&jobs, &profiles, &matches, 2);
    assert_eq!(missing.len(), 2);
    assert_eq!(pairs(&missing[0]), pp(&[("j1", "p2"), ("j2", "p1")]));
    assert_eq!(pairs(&missing[1]), pp(&[("j2", "p2")]));
}

#[test]
fn a_second_pass_finds_nothing() {
    let mut matches = Matches::new();
    matches.upsert_match_score("j1", "p1", "old", "b1", 7, None, 1);
    matches.upsert_match_score("j2", "p2", "a2", "b2", 8, None, 1);
    let jobs = vec![jl("j1", "a1"), jl("j2", "a2"), jl("j3", "a3")];
    let profiles = vec![pl("p1", "b1"), pl("p2", "b2")];
    let plan = calculate_match_score(&jobs, &profiles, &matches, 2);
    let lists = [&plan.stale, &plan.new_jobs, &plan.new_profiles, &plan.missing];
    for list in lists {
        for batch in list.iter() {
            for pair in batch {
                let job = jobs.iter().find(|j| j.id == pair.job_id).unwrap();
                let profile = profiles.iter().find(|p| p.id == pair.profile_id).unwrap();
                matches.upsert_match_score(&job.id, &profile.id, &job.hash, &profile.hash, 50, None, 9);
            }
        }
    }
    assert_eq!(matches.rows.len(), 6);
    for job in &jobs {
        for profile in &profiles {
            let rows: Vec<_> = matches
                .rows
                .iter()
                .filter(|m| m.job_id == job.id && m.profile_id == profile.id)
                .collect();
            assert_eq!(rows.len(), 1);
            assert!(match_is_fresh(rows[0], &job.hash, &profile.hash));
        }
    }
    let kept = &matches.rows[matches.find("j2", "p2")];
    assert_eq!((kept.match_score, kept.computed_at, kept.updated_at), (8, 1, 1));
    let again = calculate_match_score(&jobs, &profiles, &matches, 2);
    assert!(again.stale.is_empty());
    assert!(again.new_jobs.is_empty());
    assert!(again.new_profiles.is_empty());
    assert!(again.missing.is_empty());
}
