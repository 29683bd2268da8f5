use bap_onest_lite::codec::render;
use bap_onest_lite::config::{NotificationSchedule, ScheduleType};
use bap_onest_lite::events::{
    acks_for, admit_event, event_from_json, event_response, event_to_json, extract_profile_id,
    group_ready, handle_event, read_block_millis, read_count, reconnect_backoff_secs, should_ack,
    EntryOutcome, EventAction, EventError,
};
use bap_onest_lite::hash::hex_of;
use bap_onest_lite::ids::{
    cron_txn_id_from, message_id_from, new_cron_txn_id, new_event_id, new_message_id,
    new_txn_id, now_seconds, txn_id_from,
};
use bap_onest_lite::json::Json;
use bap_onest_lite::models::{
    ack, health, AppEvent, Context, EventRequest, EventType, SelectMessage, SelectOrder,
    OrderItem, OrderProvider, StatusMessage, StatusOrder, WebhookPayload,
};
use bap_onest_lite::notify::{
    base_string, build_headers, new_nonce, notification_batches, notification_payload,
    notify_url, pause_after_batch, plan_notifications, sign_request, signature_header,
    signed_string, HighMatch,
};
use bap_onest_lite::schedule::{
    build_cron_expr, build_notification_cron_expr, build_notification_cron_type,
    NotificationCronType,
};
use bap_onest_lite::search::route_on_search;
use bap_onest_lite::search::OnSearchRoute;
use bap_onest_lite::sync::profile_by_id_url;

fn obj(fields: Vec<(&str, Json)>) -> Json {
    Json::Object(fields.into_iter().map(|(k, v)| (k.to_string(), v)).collect())
}

fn schedule(kind: ScheduleType, weekday: Option<u8>, day: Option<u8>) -> NotificationSchedule {
    NotificationSchedule { schedule_type: kind, weekday, day, hour: 9, minute: 5, seconds: 30 }
}

fn event(kind: EventType, payload: Json) -> AppEvent {
    AppEvent {
        id: "e-1".to_string(),
        event_type: kind,
        payload,
        created_at: "2024-01-01T00:00:00Z".to_string(),
    }
}

#[test]
fn period_schedules() {
    assert_eq!(
        build_cron_expr(30),
        ("every 30 seconds".to_string(), "*/30 * * * * *".to_string())
    );
    assert_eq!(
        build_cron_expr(120),
        ("every 2 minutes".to_string(), "0 */2 * * * *".to_string())
    );
    assert_eq!(
        build_cron_expr(150),
        ("every 2 minutes 30 seconds".to_string(), "0 */2 * * * *".to_string())
    );
    assert_eq!(build_cron_expr(0), ("every 0 seconds".to_string(), "*/0 * * * * *".to_string()));
    assert_eq!(build_cron_expr(59).1, "*/59 * * * * *");
    assert_eq!(build_cron_expr(60), ("every 1 minutes".to_string(), "0 */1 * * * *".to_string()));
    assert_eq!(build_cron_expr(u64::MAX).1, "0 */307445734561825860 * * * *");
}

#[test]
fn notification_schedules() {
    let weekly = schedule(ScheduleType::Weekly, Some(3), Some(9));
    assert_eq!(
        build_notification_cron_type(&weekly),
        NotificationCronType::Weekly { weekday: 3, hour: 9, minute: 5, seconds: 30 }
    );
    assert_eq!(
        build_notification_cron_expr(&weekly),
        ("Weekly on weekday 3 at 09:05".to_string(), "30 5 9 * * 3".to_string())
    );
    let weekly = schedule(ScheduleType::Weekly, None, Some(9));
    assert_eq!(build_notification_cron_expr(&weekly).1, "30 5 9 * * 1");
    let monthly = schedule(ScheduleType::Monthly, Some(3), Some(15));
    assert_eq!(
        build_notification_cron_type(&monthly),
        NotificationCronType::Monthly { day: 15, hour: 9, minute: 5, seconds: 30 }
    );
    assert_eq!(
        build_notification_cron_expr(&monthly),
        ("Monthly on day 15 at 09:05".to_string(), "30 5 9 15 * *".to_string())
    );
    let mut late = schedule(ScheduleType::Monthly, None, None);
    late.hour = 23;
    late.minute = 59;
    assert_eq!(
        build_notification_cron_expr(&late),
        ("Monthly on day 1 at 23:59".to_string(), "30 59 23 1 * *".to_string())
    );
}

#[test]
fn requests_to_the_notifier_are_signed() {
    let nonce = hex_of(&(0u8..16).collect());
    assert_eq!(nonce, "000102030405060708090a0b0c0d0e0f");
    assert_eq!(
        base_string("POST", "/notify", "1700000000", &nonce),
        "POST\n/notify\n1700000000\n000102030405060708090a0b0c0d0e0f"
    );
    assert_eq!(
        sign_request("s3cret", "POST", "/notify", "1700000000", &nonce),
        Some("v1=530f4934247027a1769269775de0b28b61c6b36e6750d9f51a5b56368d2021b6".to_string())
    );
    assert_eq!(
        sign_request("", "POST", "/notify", "1700000000", &nonce),
        Some("v1=f510a8785d9970773ea584e3d786c46e8830d903663fc1bf6c2e3db39ee447f0".to_string())
    );
    assert_eq!(signature_header(None), None);
    assert_eq!(signature_header(Some(vec![0, 255, 16])), Some("v1=00ff10".to_string()));
    let n1 = new_nonce();
    assert_eq!(n1.len(), 32);
    assert!(n1.chars().all(|c| c.is_ascii_hexdigit() && !c.is_ascii_uppercase()));
    assert_eq!(signed_string(1700000000), "1700000000");
    assert_eq!(signed_string(-5), "-5");
    assert_eq!(signed_string(0), "0");
    assert_eq!(signed_string(i64::MIN), "-9223372036854775808");
}

#[test]
fn notifier_headers_and_address() {
    let headers: Vec<(String, String)> = build_headers("kid", "17", "aa", "v1=bb")
        .into_iter()
        .map(|h| (h.name, h.value))
        .collect();
    assert_eq!(
        headers,
        vec![
            ("X-NS-Key".to_string(), "kid".to_string()),
            ("X-NS-Timestamp".to_string(), "17".to_string()),
            ("X-NS-Nonce".to_string(), "aa".to_string()),
            ("X-NS-Signature".to_string(), "v1=bb".to_string()),
            ("content-type".to_string(), "application/json".to_string()),
        ]
    );
    assert_eq!(notify_url("http://n"), "http://n/notify");
    assert_eq!(notify_url("http://n///"), "http://n/notify");
    assert_eq!(notify_url(""), "/notify");
    assert_eq!(
        render(&notification_payload("+91", "Asha", "Driver", "Acme", "sid-1")),
        "{\"channel\":\"whatsapp\",\"priority\":\"realtime\",\"template_id\":\"other\",\"to\":\"+91\",\"variables\":{\"contentSid\":\"sid-1\",\"contentVariables\":{\"1\":\"Asha\",\"2\":\"https://getjob.onest.network/0/seeker?tab=discover\",\"3\":\"Driver\",\"4\":\"Acme\"}}}"
    );
}

#[test]
fn notifications_go_to_good_matches_with_a_phone() {
    let row = |score: i16, phone: Option<&str>, name: Option<&str>| HighMatch {
        match_score: score,
        phone: phone.map(|s| s.to_string()),
        name: name.map(|s| s.to_string()),
        role: None,
        job_provider_name: Some("Acme".to_string()),
    };
    let rows = vec![
        row(90, Some("1"), Some("Asha")),
        row(69, Some("2"), None),
        row(70, None, None),
        row(70, Some("4"), None),
        row(100, Some("5"), None),
    ];
    let plan = plan_notifications(&rows, 70);
    let sent: Vec<(&str, &str, &str, &str)> = plan
        .iter()
        .map(|n| (n.phone.as_str(), n.name.as_str(), n.role.as_str(), n.provider_name.as_str()))
        .collect();
    assert_eq!(
        sent,
        vec![("1", "Asha", "Job", "Acme"), ("4", "User", "Job", "Acme"), ("5", "User", "Job", "Acme")]
    );
    let batches = notification_batches(plan, 2);
    assert_eq!(batches.iter().map(|b| b.len()).collect::<Vec<_>>(), vec![2, 1]);
    assert_eq!(notification_batches(plan_notifications(&rows, 70), 0).len(), 3);
    assert_eq!(pause_after_batch(0, 2), Some(5));
    assert_eq!(pause_after_batch(1, 2), None);
    assert_eq!(pause_after_batch(0, 0), None);
    assert_eq!(pause_after_batch(usize::MAX, usize::MAX), None);
}

#[test]
fn events_name_the_profile_to_sync() {
    let e = event(EventType::ProfileUpdated, obj(vec![("profileId", Json::text("p-9"))]));
    assert_eq!(extract_profile_id(&e), Ok("p-9".to_string()));
    assert!(matches!(handle_event(&e), Ok(EventAction::SyncProfile(ref id)) if id == "p-9"));
    assert_eq!(
        profile_by_id_url("http://seeker", "p-9"),
        "http://seeker/profile/all?profileId=p-9&page=1&limit=30"
    );
    let e = event(EventType::ProfileCreated, obj(vec![("profileId", Json::text(""))]));
    assert_eq!(extract_profile_id(&e), Err(EventError::MissingProfileId));
    let e = event(EventType::ProfileCreated, obj(vec![("profileId", Json::Int(9))]));
    assert!(handle_event(&e).is_err());
    let e = event(EventType::ProfileCreated, Json::Null);
    assert_eq!(extract_profile_id(&e), Err(EventError::MissingProfileId));
    assert_eq!(
        EventError::MissingProfileId.message(),
        "Missing or invalid profileId in event payload"
    );
}

#[test]
fn events_round_trip_through_documents() {
    let request = EventRequest {
        event_type: EventType::ProfileUpdated,
        payload: obj(vec![("profileId", Json::text("p-9"))]),
    };
    let admitted = admit_event(request, "e-7".to_string(), "T".to_string());
    let doc = event_to_json(&admitted);
    assert_eq!(
        render(&doc),
        "{\"created_at\":\"T\",\"event_type\":\"profile.updated\",\"id\":\"e-7\",\"payload\":{\"profileId\":\"p-9\"}}"
    );
    let back = event_from_json(&doc).unwrap();
    assert_eq!(back.id, "e-7");
    assert_eq!(back.event_type, EventType::ProfileUpdated);
    assert_eq!(back.payload, admitted.payload);
    assert_eq!(back.created_at, "T");
    let response = event_response(&admitted, "app_events");
    assert_eq!(
        (response.status.as_str(), response.event_id.as_str(), response.stream.as_str()),
        ("ok", "e-7", "app_events")
    );
    assert!(event_from_json(&Json::Null).is_none());
    assert!(event_from_json(&doc.duplicate().without_field("payload")).is_none());
    assert!(event_from_json(&doc.duplicate().with_field("event_type", Json::text("profile.deleted"))).is_none());
    assert_eq!(EventType::from_name("profile.created"), Some(EventType::ProfileCreated));
    assert_eq!(EventType::from_name("Profile.created"), None);
    assert_eq!(EventType::ProfileCreated.name(), "profile.created");
}

#[test]
fn entries_are_acknowledged_only_when_handled() {
    assert!(should_ack(EntryOutcome::Handled));
    assert!(!should_ack(EntryOutcome::Failed));
    assert!(!should_ack(EntryOutcome::Unreadable));
    let ids = vec!["1-0".to_string(), "2-0".to_string(), "3-0".to_string(), "4-0".to_string()];
    let outcomes = vec![EntryOutcome::Handled, EntryOutcome::Failed, EntryOutcome::Handled];
    assert_eq!(acks_for(&ids, &outcomes), vec!["1-0", "3-0"]);
    assert!(acks_for(&ids, &vec![]).is_empty());
    assert_eq!(read_count(), 10);
    assert_eq!(read_block_millis(), 5000);
    assert_eq!(reconnect_backoff_secs(), 3);
}

#[test]
fn an_existing_consumer_group_is_fine() {
    assert_eq!(group_ready(Ok(())), Ok(()));
    assert_eq!(
        group_ready(Err("BUSYGROUP Consumer Group name already exists".to_string())),
        Ok(())
    );
    assert_eq!(group_ready(Err("NOAUTH".to_string())), Err("NOAUTH".to_string()));
    assert_eq!(group_ready(Err("busygroup".to_string())), Err("busygroup".to_string()));
}

#[test]
fn identifiers_carry_their_prefix() {
    assert_eq!(message_id_from("abc"), "msg-abc");
    assert_eq!(txn_id_from("abc"), "txn-abc");
    assert_eq!(cron_txn_id_from("abc"), "cron-abc");
    let m = new_message_id();
    assert!(m.starts_with("msg-") && m.len() == 40);
    assert!(new_txn_id().starts_with("txn-"));
    let c = new_cron_txn_id();
    assert!(c.starts_with("cron-"));
    assert_eq!(route_on_search(&c), OnSearchRoute::Cron);
    assert_ne!(new_event_id(), new_event_id());
    assert!(now_seconds() > 1_600_000_000);
}

#[test]
fn acknowledgement_and_health() {
    assert_eq!(ack().message.ack.status, "ACK");
    let h = health("now".to_string());
    assert_eq!((h.status, h.timestamp.as_str()), ("OK", "now"));
}

#[test]
fn messages_on_the_wire() {
    let select = SelectMessage {
        order: SelectOrder {
            provider: OrderProvider { id: "p".to_string() },
            items: vec![OrderItem { id: "i1".to_string() }, OrderItem { id: "i2".to_string() }],
        },
    };
    assert_eq!(
        render(&select.to_json()),
        "{\"order\":{\"items\":[{\"id\":\"i1\"},{\"id\":\"i2\"}],\"provider\":{\"id\":\"p\"}}}"
    );
    let status = StatusMessage { order: StatusOrder { id: "o".to_string() } };
    assert_eq!(render(&status.to_json()), "{\"order\":{\"id\":\"o\"}}");
    let payload = WebhookPayload {
        context: Context {
            transaction_id: "t".to_string(),
            message_id: "m".to_string(),
            action: "on_search".to_string(),
            bap_id: "bap".to_string(),
            bap_uri: "uri".to_string(),
            bpp_id: Some("bpp-A".to_string()),
            bpp_uri: None,
            domain: "d".to_string(),
            version: "v".to_string(),
            ttl: "PT30S".to_string(),
            timestamp: "T".to_string(),
        },
        message: obj(vec![("a", Json::Int(1))]),
    };
    assert_eq!(
        render(&payload.to_json()),
        "{\"context\":{\"action\":\"on_search\",\"bap_id\":\"bap\",\"bap_uri\":\"uri\",\"bpp_id\":\"bpp-A\",\"domain\":\"d\",\"message_id\":\"m\",\"timestamp\":\"T\",\"transaction_id\":\"t\",\"ttl\":\"PT30S\",\"version\":\"v\"},\"message\":{\"a\":1}}"
    );
}

#[test]
fn event_ids_are_hyphenated_uuids() {
    for _ in 0..20 {
        let id = new_event_id();
        let chars: Vec<char> = id.chars().collect();
        assert_eq!(chars.len(), 36);
        for (i, c) in chars.iter().enumerate() {
            if i == 8 || i == 13 || i == 18 || i == 23 {
                assert_eq!(*c, '-');
            } else {
                assert!(c.is_ascii_digit() || ('a'..='f').contains(c), "{:?} in {}", c, id);
            }
        }
    }
}
