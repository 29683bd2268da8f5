use bap_onest_lite::codec::render;
use bap_onest_lite::json::Json;
use bap_onest_lite::matching::{
    list_tokens, matches_query_dynamic, passes_item, passes_provider, prepare_filters,
};
use bap_onest_lite::query::{
    build_search_response, dedupe_hits, find_hits, handle_search_v2, page_window, rank_items,
    select_items, show_item, stored_embedding, Candidate, SearchRequestV2,
};

fn obj(fields: Vec<(&str, Json)>) -> Json {
    Json::Object(fields.into_iter().map(|(k, v)| (k.to_string(), v)).collect())
}

fn job(id: &str, name: &str, role: &str, industry: &str) -> Json {
    obj(vec![
        ("id", Json::text(id)),
        ("descriptor", obj(vec![("name", Json::text(name))])),
        ("embedding", Json::Array(vec![Json::Int(1)])),
        (
            "tags",
            obj(vec![
                ("role", Json::text(role)),
                ("industry", Json::text(industry)),
                ("jobDetails", obj(vec![("title", Json::text("Senior"))])),
                ("jobProviderLocation", obj(vec![("city", Json::text("Pune"))])),
                ("basicInfo", obj(vec![("jobProviderName", Json::text("Globex"))])),
            ]),
        ),
        ("locations", Json::Array(vec![obj(vec![("city", Json::text("Bangalore"))])])),
    ])
}

fn provider(id: &str, name: &str, items: Vec<Json>) -> Json {
    obj(vec![
        ("id", Json::text(id)),
        ("descriptor", obj(vec![("name", Json::text(name))])),
        ("items", Json::Array(items)),
    ])
}

fn payload(bpp: &str, providers: Vec<Json>) -> Json {
    obj(vec![
        ("context", obj(vec![("bpp_id", Json::text(bpp))])),
        ("message", obj(vec![("catalog", obj(vec![("providers", Json::Array(providers))]))])),
    ])
}

fn catalogue() -> Vec<Json> {
    vec![
        payload(
            "bpp-A",
            vec![
                provider("p1", "Acme Corp", vec![job("1", "Driver, Loader", "driver", "logistics"), job("2", "Cook", "cook", "food")]),
                provider("p2", "Initech", vec![job("3", "Nurse", "nurse", "health")]),
            ],
        ),
        payload(
            "bpp-B",
            vec![provider("p9", "Acme Corp", vec![job("1", "Driver", "driver", "logistics"), job("4", "Guard", "guard", "security")])],
        ),
    ]
}

fn request() -> SearchRequestV2 {
    SearchRequestV2 {
        page: None,
        limit: None,
        provider: None,
        role: None,
        query: None,
        primary_filters: None,
        exclude_filters: None,
        profile: None,
    }
}

fn places(cands: &Vec<Candidate>) -> Vec<(usize, usize, usize)> {
    cands.iter().map(|c| (c.payload, c.provider, c.item)).collect()
}

fn shown_ids(response: &Json) -> Vec<(String, String, i64)> {
    let mut out = vec![];
    for r in response.get("results").unwrap().as_array().unwrap() {
        let bpp = r.pointer("/context/bpp_id").unwrap().as_str().unwrap().to_string();
        for p in r.pointer("/message/catalog/providers").unwrap().as_array().unwrap() {
            for i in p.get("items").unwrap().as_array().unwrap() {
                assert!(i.get("embedding").is_none());
                out.push((
                    bpp.clone(),
                    i.get("id").unwrap().as_str().unwrap().to_string(),
                    i.get("match_score").unwrap().as_i64().unwrap(),
                ));
            }
        }
    }
    out
}

#[test]
fn tokens_are_trimmed_and_lowercased() {
    let tokens: Vec<String> = list_tokens(" Driver , ,COOK").iter().map(|t| t.iter().collect()).collect();
    assert_eq!(tokens, vec!["driver", "", "cook"]);
    let tokens: Vec<String> = list_tokens("").iter().map(|t| t.iter().collect()).collect();
    assert_eq!(tokens, vec![""]);
}

#[test]
fn free_text_matches_any_listed_field() {
    let item = job("1", "Driver", "chauffeur", "logistics");
    assert!(matches_query_dynamic("Acme Corp", &item, "acme"));
    assert!(matches_query_dynamic("x", &item, "DRIV"));
    assert!(matches_query_dynamic("x", &item, "logis"));
    assert!(matches_query_dynamic("x", &item, "chauff"));
    assert!(matches_query_dynamic("x", &item, "senior"));
    assert!(matches_query_dynamic("x", &item, "pune"));
    assert!(matches_query_dynamic("x", &item, "globex"));
    assert!(matches_query_dynamic("x", &item, "bangalore"));
    assert!(matches_query_dynamic("x", &item, "\"city\""));
    assert!(matches_query_dynamic("x", &item, "zzz, pune"));
    assert!(!matches_query_dynamic("x", &item, "zzz"));
    assert!(!matches_query_dynamic("x", &item, ""));
    assert!(!matches_query_dynamic("x", &item, " , "));
    assert!(!matches_query_dynamic("x", &Json::Null, "a"));
    assert!(matches_query_dynamic("xa", &Json::Null, "a"));
}

#[test]
fn filters_apply_to_providers_and_items() {
    let item = job("1", "Driver, Loader", "driver", "logistics");
    let none = prepare_filters(None, None, None, None, None);
    assert!(passes_provider(&none, "Any") && passes_item(&none, "Any", &item));
    let by_provider = prepare_filters(Some("ACME"), None, None, None, None);
    assert!(passes_provider(&by_provider, "Acme Corp"));
    assert!(!passes_provider(&by_provider, "Initech"));
    let by_role = prepare_filters(None, Some("loader"), None, None, None);
    assert!(passes_item(&by_role, "x", &item));
    let by_role = prepare_filters(None, Some("cook, nurse"), None, None, None);
    assert!(!passes_item(&by_role, "x", &item));
    let primary = prepare_filters(None, None, None, Some("driver"), None);
    assert!(passes_item(&primary, "x", &item));
    let primary = prepare_filters(None, None, None, Some("pilot"), None);
    assert!(!passes_item(&primary, "x", &item));
    let query = prepare_filters(None, None, Some("LOGISTICS"), None, None);
    assert!(passes_item(&query, "x", &item));
    let query = prepare_filters(None, None, Some("finance"), None, None);
    assert!(!passes_item(&query, "x", &item));
    let exclude = prepare_filters(None, None, None, None, Some("logist"));
    assert!(!passes_item(&exclude, "x", &item));
    let exclude = prepare_filters(None, None, None, None, Some("loader"));
    assert!(passes_item(&exclude, "x", &item));
}

#[test]
fn selection_is_in_order_and_counts_each_id_once() {
    let payloads = catalogue();
    let none = prepare_filters(None, None, None, None, None);
    let hits = find_hits(&payloads, &none);
    assert_eq!(hits.len(), 5);
    let keys: Vec<&str> = hits.iter().map(|h| h.key.as_str()).collect();
    assert_eq!(keys, vec!["1", "2", "3", "1", "4"]);
    assert_eq!(places(&dedupe_hits(&hits)), vec![(0, 0, 0), (0, 0, 1), (0, 1, 0), (1, 0, 1)]);
    let acme = prepare_filters(Some("acme"), None, None, None, None);
    assert_eq!(places(&select_items(&payloads, &acme)), vec![(0, 0, 0), (0, 0, 1), (1, 0, 1)]);
    let cooks = prepare_filters(None, Some("cook"), None, None, None);
    assert_eq!(places(&select_items(&payloads, &cooks)), vec![(0, 0, 1)]);
    assert!(select_items(&vec![Json::Null, Json::Int(3)], &none).is_empty());
}

#[test]
fn items_without_id_are_told_apart_by_their_text() {
    let a = obj(vec![("name", Json::text("a"))]);
    let b = obj(vec![("name", Json::text("b"))]);
    let payloads = vec![payload("x", vec![provider("p", "P", vec![a, b, obj(vec![("name", Json::text("a"))])])])];
    let none = prepare_filters(None, None, None, None, None);
    assert_eq!(places(&select_items(&payloads, &none)), vec![(0, 0, 0), (0, 0, 1)]);
}

#[test]
fn ranking_is_by_descending_score_and_stable() {
    assert_eq!(rank_items(&vec![3, 9, 3, 0, 9, 255], 6, true), vec![5, 1, 4, 0, 2, 3]);
    assert_eq!(rank_items(&vec![3, 9, 3, 0, 9, 255], 6, false), vec![0, 1, 2, 3, 4, 5]);
    assert_eq!(rank_items(&vec![5], 3, true), vec![0, 1, 2]);
    assert_eq!(rank_items(&vec![1, 2, 3], 2, true), vec![1, 0]);
    assert!(rank_items(&vec![], 0, true).is_empty());
}

#[test]
fn page_window_is_clamped() {
    assert_eq!(page_window(25, 1, 10), (0, 10));
    assert_eq!(page_window(25, 3, 10), (20, 25));
    assert_eq!(page_window(25, 4, 10), (25, 25));
    assert_eq!(page_window(25, 0, 10), (0, 10));
    assert_eq!(page_window(25, 2, 0), (0, 0));
    assert_eq!(page_window(25, usize::MAX, usize::MAX), (25, 25));
    assert_eq!(page_window(0, 1, 10), (0, 0));
}

#[test]
fn shown_items_lose_their_embedding_and_gain_a_score() {
    let item = job("1", "Driver", "driver", "logistics");
    let shown = show_item(&item, 7);
    assert!(shown.get("embedding").is_none());
    assert_eq!(shown.get("match_score").unwrap().as_i64(), Some(7));
    assert_eq!(shown.get("id").unwrap().as_str(), Some("1"));
    assert_eq!(render(&show_item(&Json::text("x"), 0)), "{\"match_score\":0}");
}

#[test]
fn response_groups_by_context_and_provider() {
    let payloads = catalogue();
    let response = handle_search_v2(&payloads, &request(), &vec![], false);
    assert_eq!(
        render(response.get("pagination").unwrap()),
        "{\"limit\":10,\"page\":1,\"totalCount\":4}"
    );
    assert_eq!(
        shown_ids(&response),
        vec![
            ("bpp-A".to_string(), "1".to_string(), 0),
            ("bpp-A".to_string(), "2".to_string(), 0),
            ("bpp-A".to_string(), "3".to_string(), 0),
            ("bpp-B".to_string(), "4".to_string(), 0),
        ]
    );
    let results = response.get("results").unwrap().as_array().unwrap();
    assert_eq!(results.len(), 2);
    let first = results[0].pointer("/message/catalog/providers").unwrap().as_array().unwrap();
    assert_eq!(first.len(), 2);
    assert_eq!(
        render(&first[1].duplicate().without_field("items")),
        "{\"descriptor\":{\"name\":\"Initech\"},\"fulfillments\":[],\"id\":\"p2\",\"locations\":[]}"
    );
}

#[test]
fn response_is_ranked_and_paged() {
    let payloads = catalogue();
    let mut req = request();
    req.limit = Some(2);
    let scores = vec![1, 9, 9, 4];
    let page1 = handle_search_v2(&payloads, &req, &scores, true);
    assert_eq!(
        shown_ids(&page1),
        vec![("bpp-A".to_string(), "2".to_string(), 9), ("bpp-A".to_string(), "3".to_string(), 9)]
    );
    req.page = Some(2);
    let page2 = handle_search_v2(&payloads, &req, &scores, true);
    assert_eq!(
        shown_ids(&page2),
        vec![("bpp-B".to_string(), "4".to_string(), 4), ("bpp-A".to_string(), "1".to_string(), 1)]
    );
    assert_eq!(page2.get("results").unwrap().as_array().unwrap().len(), 2);
    req.page = Some(3);
    let page3 = handle_search_v2(&payloads, &req, &scores, true);
    assert_eq!(render(page3.get("results").unwrap()), "[]");
    assert_eq!(render(page3.get("pagination").unwrap()), "{\"limit\":2,\"page\":3,\"totalCount\":4}");
}

#[test]
fn response_for_given_candidates() {
    let payloads = catalogue();
    let cands = vec![
        Candidate { payload: 1, provider: 0, item: 1 },
        Candidate { payload: 7, provider: 0, item: 0 },
        Candidate { payload: 0, provider: 0, item: 0 },
    ];
    let response = build_search_response(&payloads, &cands, &vec![2, 8, 5], true, 1, 10);
    assert_eq!(
        shown_ids(&response),
        vec![("bpp-A".to_string(), "1".to_string(), 5), ("bpp-B".to_string(), "4".to_string(), 2)]
    );
    assert_eq!(response.pointer("/pagination/totalCount").unwrap().as_i64(), Some(3));
    assert!(stored_embedding(&payloads, &cands[0]).is_some());
    assert!(stored_embedding(&payloads, &cands[1]).is_none());
}
