use bap_onest_lite::config::{
    AppConfig, AuthConfig, BackendServiceConfig, Bap, Bpp, CacheConfig, CronConfig, DbConfig,
    GcpConfig, HttpConfig, JobSchedule, MatchScoreConfig, NotificationConfig,
    NotificationSchedule, NotificationServiceConfig, RedisConfig, ScheduleType,
    ServicesConfig,
};
use bap_onest_lite::codec::render;
use bap_onest_lite::config::{MatchMode, MetaDataMatch};
use bap_onest_lite::embedding::{
    cache_embedding, join_parts, needs_embedding, plan_embedding, text_for_embedding,
    weighted_push, EmbeddingPlan,
};
use bap_onest_lite::hash::{compute_job_hash, embedding_cache_key};
use bap_onest_lite::json::{Decimal, Json};
use bap_onest_lite::matches::{JobRow, ProfileRow};
use bap_onest_lite::scoring::RuleEffect::{Bonus, Nothing, Penalty};
use bap_onest_lite::scoring::{
    compute_factors, embeddings_comparable, examine_rule, examine_rules, range_verdict,
    rule_effect, score_breakdown, score_factors, stored_score, Factor, Need, RuleEffect,
    SimilarityMemo,
};
use bap_onest_lite::store::MemoryStore;

fn obj(fields: Vec<(&str, Json)>) -> Json {
    Json::Object(fields.into_iter().map(|(k, v)| (k.to_string(), v)).collect())
}

fn embed(name: &str, profile_path: &str, job_path: &str) -> MetaDataMatch {
    MetaDataMatch {
        name: name.to_string(),
        profile_path: profile_path.to_string(),
        job_path: job_path.to_string(),
        job_path_min: None,
        job_path_max: None,
        weight: None,
        is_array: false,
        match_mode: MatchMode::Embed,
        penalty: Decimal::parse("0.8").unwrap(),
        bonus: None,
    }
}

fn manual(name: &str, profile_path: &str, min: &str, max: &str, bonus: bool) -> MetaDataMatch {
    MetaDataMatch {
        name: name.to_string(),
        profile_path: profile_path.to_string(),
        job_path: min.to_string(),
        job_path_min: Some(min.to_string()),
        job_path_max: Some(max.to_string()),
        weight: None,
        is_array: false,
        match_mode: MatchMode::Manual,
        penalty: Decimal::parse("0.9").unwrap(),
        bonus: if bonus { Some(Decimal::parse("1.1").unwrap()) } else { None },
    }
}

fn profile() -> Json {
    obj(vec![(
        "metadata",
        obj(vec![
            ("role", Json::text("Driver")),
            ("skills", Json::Array(vec![Json::text("gps"), Json::Int(3), Json::text("maps")])),
            ("salary", Json::Int(500)),
            ("hours", Json::Real(Decimal::parse("7.5").unwrap())),
            ("nothing", Json::Null),
        ]),
    )])
}

fn job() -> Json {
    obj(vec![(
        "tags",
        obj(vec![
            ("role", Json::text("Chauffeur")),
            ("industry", Json::text("Logistics")),
            ("skills", Json::Array(vec![Json::text("driving")])),
            ("salaryMin", Json::Int(400)),
            ("salaryMax", Json::Int(600)),
            ("hoursMin", Json::Int(8)),
            ("hoursMax", Json::Int(9)),
            ("nothing", Json::Int(1)),
        ]),
    )])
}

#[test]
fn weighted_push_repeats_the_text() {
    let mut parts = vec!["a".to_string()];
    weighted_push(&mut parts, "b", 3);
    weighted_push(&mut parts, "c", 0);
    assert_eq!(parts, vec!["a", "b", "b", "b"]);
    assert_eq!(join_parts(&parts), "a b b b");
    assert_eq!(join_parts(&vec![]), "");
    assert_eq!(join_parts(&vec!["x".to_string()]), "x");
}

#[test]
fn embedding_text_follows_the_rules() {
    let mut role = embed("role", "/metadata/role", "/tags/role");
    role.weight = Some(2);
    let mut skills = embed("skills", "/metadata/skills", "/tags/skills");
    skills.is_array = true;
    let salary = manual("salary", "/metadata/salary", "/tags/salaryMin", "/tags/salaryMax", false);
    let missing = embed("x", "/metadata/x", "/tags/x");
    let mut not_array = embed("role2", "/metadata/role", "/tags/role");
    not_array.is_array = true;
    let rules = vec![role, salary, skills, missing, not_array];
    assert_eq!(text_for_embedding(&profile(), &rules, false), "Driver Driver gps maps");
    assert_eq!(text_for_embedding(&job(), &rules, true), "Chauffeur Chauffeur driving");
    assert_eq!(text_for_embedding(&Json::Null, &rules, true), "");
    assert!(needs_embedding("a"));
    assert!(!needs_embedding(""));
    assert!(!needs_embedding(" \t\n"));
}

#[test]
fn rules_find_missing_fields() {
    let r = embed("nothing", "/metadata/nothing", "/tags/nothing");
    assert!(examine_rule(&r, &profile(), &job()).missing_in_profile);
    let r = embed("absent", "/metadata/absent", "/tags/role");
    let facts = examine_rule(&r, &profile(), &job());
    assert!(facts.missing_in_profile);
    assert!(matches!(facts.need, Need::Nothing));
    assert_eq!(rule_effect(&r, &facts, None), RuleEffect::Penalty);
    let r = embed("absent", "/metadata/role", "/tags/absent");
    assert!(!examine_rule(&r, &profile(), &job()).missing_in_profile);
}

#[test]
fn proper_nouns_are_compared_by_similarity() {
    let r = embed("role", "/metadata/role", "/tags/role");
    let facts = examine_rule(&r, &profile(), &job());
    assert!(!facts.missing_in_profile);
    assert!(matches!(facts.need, Need::Similarity { ref profile_text, ref job_text }
        if profile_text == "Driver" && job_text == "Chauffeur"));
    assert_eq!(rule_effect(&r, &facts, Some(false)), RuleEffect::Penalty);
    assert_eq!(rule_effect(&r, &facts, Some(true)), RuleEffect::Nothing);
    assert_eq!(rule_effect(&r, &facts, None), RuleEffect::Nothing);
    let r = embed("title", "/metadata/role", "/tags/role");
    assert!(matches!(examine_rule(&r, &profile(), &job()).need, Need::Nothing));
    let r = embed("industry", "/metadata/role", "/tags/industry");
    assert!(matches!(examine_rule(&r, &profile(), &job()).need, Need::Similarity { .. }));
    let blank = obj(vec![("metadata", obj(vec![("role", Json::text(""))]))]);
    let r = embed("role", "/metadata/role", "/tags/role");
    assert!(matches!(examine_rule(&r, &blank, &job()).need, Need::Nothing));
}

#[test]
fn numbers_are_compared_with_bounds() {
    let r = manual("salary", "/metadata/salary", "/tags/salaryMin", "/tags/salaryMax", true);
    let facts = examine_rule(&r, &profile(), &job());
    match &facts.need {
        Need::Range { value, min, max } => {
            assert_eq!(range_verdict(value, min, max), Some(true));
        }
        _ => panic!("a range was expected"),
    }
    assert_eq!(rule_effect(&r, &facts, Some(true)), RuleEffect::Bonus);
    assert_eq!(rule_effect(&r, &facts, Some(false)), RuleEffect::Penalty);
    let plain = manual("salary", "/metadata/salary", "/tags/salaryMin", "/tags/salaryMax", false);
    assert_eq!(rule_effect(&plain, &facts, Some(true)), RuleEffect::Nothing);
    let r = manual("hours", "/metadata/hours", "/tags/hoursMin", "/tags/hoursMax", false);
    match &examine_rule(&r, &profile(), &job()).need {
        Need::Range { value, min, max } => {
            assert_eq!(range_verdict(value, min, max), None);
            assert_eq!(render(value), "7.5");
        }
        _ => panic!("a range was expected"),
    }
    let r = manual("role", "/metadata/role", "/tags/salaryMin", "/tags/salaryMax", false);
    assert!(matches!(examine_rule(&r, &profile(), &job()).need, Need::Nothing));
    assert_eq!(range_verdict(&Json::Int(5), &Json::Int(5), &Json::Int(5)), Some(true));
    assert_eq!(range_verdict(&Json::Int(4), &Json::Int(5), &Json::Int(9)), Some(false));
    assert_eq!(range_verdict(&Json::UInt(u64::MAX), &Json::Int(i64::MIN), &Json::UInt(u64::MAX)), Some(true));
    assert_eq!(range_verdict(&Json::Int(10), &Json::Int(5), &Json::Int(9)), Some(false));
    assert_eq!(range_verdict(&Json::text("5"), &Json::Int(5), &Json::Int(9)), None);
}

#[test]
fn factors_count_mismatches() {
    assert!(score_factors(&vec![]).is_empty());
    assert_eq!(score_factors(&vec![Nothing, Penalty]), vec![Factor::Penalty(1)]);
    assert_eq!(
        score_factors(&vec![Penalty, Bonus, Penalty]),
        vec![Factor::Penalty(0), Factor::Bonus(1), Factor::Penalty(2), Factor::TwoMismatches]
    );
    assert_eq!(
        score_factors(&vec![Penalty, Penalty, Penalty]),
        vec![Factor::Penalty(0), Factor::Penalty(1), Factor::Penalty(2), Factor::ManyMismatches]
    );
    assert_eq!(
        score_factors(&vec![Penalty, Penalty, Penalty, Penalty]).last(),
        Some(&Factor::ManyMismatches)
    );
    assert_eq!(score_factors(&vec![Bonus, Bonus, Bonus]), vec![Factor::Bonus(0), Factor::Bonus(1), Factor::Bonus(2)]);
}

#[test]
fn factors_for_a_pair() {
    let rules = vec![
        embed("role", "/metadata/role", "/tags/role"),
        manual("salary", "/metadata/salary", "/tags/salaryMin", "/tags/salaryMax", true),
        embed("nothing", "/metadata/nothing", "/tags/nothing"),
    ];
    assert_eq!(examine_rules(&rules, &profile(), &job()).len(), 3);
    let factors = compute_factors(&rules, &profile(), &job(), &vec![Some(false), Some(true)]);
    assert_eq!(
        factors,
        vec![Factor::Penalty(0), Factor::Bonus(1), Factor::Penalty(2), Factor::TwoMismatches]
    );
    let factors = compute_factors(&rules, &profile(), &job(), &vec![]);
    assert_eq!(factors, vec![Factor::Penalty(2)]);
}

#[test]
fn stored_score_is_a_percentage() {
    assert_eq!(stored_score(0), 0);
    assert_eq!(stored_score(70), 70);
    assert_eq!(stored_score(100), 100);
    assert_eq!(stored_score(101), 100);
    assert_eq!(stored_score(-1), 0);
    assert_eq!(stored_score(i64::MAX), 100);
    assert_eq!(stored_score(i64::MIN), 0);
    assert!(embeddings_comparable(3, 3));
    assert!(!embeddings_comparable(0, 0));
    assert!(!embeddings_comparable(3, 4));
    assert_eq!(
        render(&score_breakdown(Decimal::parse("0.75").unwrap())),
        "{\"cosine_score\":0.75}"
    );
}

#[test]
fn similarity_answers_are_remembered() {
    let mut memo = SimilarityMemo::new();
    assert_eq!(memo.recall("a", "b"), None);
    memo.remember("a", "b", true);
    memo.remember("a", "b", false);
    memo.remember("b", "a", false);
    assert_eq!(memo.recall("a", "b"), Some(true));
    assert_eq!(memo.recall("b", "a"), Some(false));
    assert_eq!(memo.recall("a", "a"), None);
    assert_eq!(memo.entries.len(), 2);
}

#[test]
fn scoring_starts_from_metadata_and_blob() {
    let cfg = config(vec![embed("role", "/metadata/role", "/tags/role")]);
    let job_row = JobRow {
        id: "j".to_string(),
        hash: "h".to_string(),
        metadata: None,
        beckn_structure: Some(job()),
    };
    let profile_row = ProfileRow {
        id: "p".to_string(),
        hash: "h".to_string(),
        metadata: Some(obj(vec![("role", Json::text("Driver"))])),
        beckn_structure: None,
    };
    let inputs = bap_onest_lite::scoring::compute_match_score(&job_row, &profile_row, &cfg).unwrap();
    assert_eq!(inputs.profile_text, "Driver");
    assert_eq!(inputs.job_text, "Chauffeur");
    assert_eq!(render(&inputs.profile_doc), "{\"metadata\":{\"role\":\"Driver\"}}");
    let bare = ProfileRow { id: "p".to_string(), hash: "h".to_string(), metadata: None, beckn_structure: None };
    assert!(bap_onest_lite::scoring::compute_match_score(&job_row, &bare, &cfg).is_none());
    let empty_job = JobRow { id: "j".to_string(), hash: "h".to_string(), metadata: None, beckn_structure: None };
    assert!(bap_onest_lite::scoring::compute_match_score(&empty_job, &profile_row, &cfg).is_none());
}

#[test]
fn embedding_cache_serves_identical_texts() {
    let mut cache = MemoryStore::new();
    assert!(matches!(plan_embedding(&cache, "m", "  ", 0), EmbeddingPlan::Empty));
    assert!(matches!(plan_embedding(&cache, "m", "", 0), EmbeddingPlan::Empty));
    let key = match plan_embedding(&cache, "m", "driver", 0) {
        EmbeddingPlan::Request { key } => key,
        _ => panic!("a request was expected"),
    };
    assert_eq!(
        key,
        "embedding:m:b4def8217cadae26d4da633fd2a4e58e326cbb5d570afdc3989484da07af3579"
    );
    assert_eq!(key, embedding_cache_key("m", "driver"));
    cache_embedding(&mut cache, &key, "[0.1,0.2]");
    for now in [0, 1, u64::MAX] {
        assert!(matches!(plan_embedding(&cache, "m", "driver", now),
            EmbeddingPlan::Cached(ref v) if v == "[0.1,0.2]"));
    }
    assert!(matches!(plan_embedding(&cache, "m2", "driver", 1), EmbeddingPlan::Request { .. }));
    assert!(matches!(plan_embedding(&cache, "m", "Driver", 1), EmbeddingPlan::Request { .. }));
}

#[test]
fn job_hash_is_of_the_item_text() {
    assert_eq!(
        compute_job_hash(&obj(vec![("id", Json::text("I1"))])),
        "74e0d1a76d2041617df27f927ce1595db1b8277f87cb93bbfb0ba11183622898"
    );
}

fn config(rules: Vec<MetaDataMatch>) -> AppConfig {
    AppConfig {
        debug: false,
        bap: Bap {
            id: "bap-1".to_string(),
            caller_uri: "http://adapter".to_string(),
            bap_uri: "http://bap".to_string(),
            domain: "jobs".to_string(),
            version: "1.1.0".to_string(),
            ttl: "PT30S".to_string(),
        },
        bpp: Bpp { id: "b".to_string(), caller_uri: "c".to_string(), catalog_name: "n".to_string() },
        http: HttpConfig { address: "a".to_string(), port: "1".to_string() },
        redis: RedisConfig { url: "r".to_string() },
        db: DbConfig { url: "d".to_string() },
        cache: CacheConfig::standard(),
        cron: CronConfig {
            fetch_jobs: JobSchedule { seconds: 60 },
            fetch_profiles: JobSchedule { seconds: 60 },
            compute_match_scores: MatchScoreConfig { source: "s".to_string(), batch: 2 },
            notification: NotificationConfig {
                min_score: 70,
                batch: 2,
                schedule: NotificationSchedule {
                    schedule_type: ScheduleType::Monthly,
                    weekday: None,
                    day: None,
                    hour: 1,
                    minute: 2,
                    seconds: 3,
                },
            },
        },
        gcp: GcpConfig { project_id: "p".to_string(), model: "m".to_string(), auth_token: "t".to_string() },
        match_score_path: "x".to_string(),
        metadata_match: rules,
        services: ServicesConfig {
            seeker: BackendServiceConfig { base_url: "s".to_string(), api_key: "k".to_string() },
            notification: NotificationServiceConfig {
                base_url: "n".to_string(),
                content_sid: "c".to_string(),
                ns_key_id: "i".to_string(),
                ns_secret: "s".to_string(),
            },
        },
        auth: AuthConfig { x_api_key: "k".to_string() },
    }
}
