use bap_onest_lite::applications::{
    apply_next, extract_application, handle_job_apply, Applications, ApplyEvent, ApplyState,
    ApplyStep, NewJobApplication,
};
use bap_onest_lite::callflow::{
    api_key_accepted, call_timeout_secs, conclude_call, error_reply, http_status,
    resolve_callback, unauthorized_reply, webhook_action, CallEvent, CallReply, ErrorKind,
    WebhookAction,
};
use bap_onest_lite::codec::render;
use bap_onest_lite::correlator::{Correlator, CorrelatorError};
use bap_onest_lite::drafts::{
    create_user_draft_application, delete_user_draft_application, update_user_draft_application,
    DraftError, Drafts, JobDraft,
};
use bap_onest_lite::json::Json;
use bap_onest_lite::models::{
    Customer, Fulfillment, InitMessage, InitOrder, InitOrderItem, JobRequest, MinimalContext,
    Person, Provider,
};

fn obj(fields: Vec<(&str, Json)>) -> Json {
    Json::Object(fields.into_iter().map(|(k, v)| (k.to_string(), v)).collect())
}

fn request(user: &str, job: &str) -> JobRequest {
    JobRequest {
        context: MinimalContext {
            transaction_id: "txn-1".to_string(),
            bpp_id: "bpp-B".to_string(),
            bpp_uri: "http://bpp-b".to_string(),
        },
        message: InitMessage {
            order: InitOrder {
                provider: Provider { id: "prov-1".to_string() },
                items: vec![InitOrderItem { id: job.to_string(), fulfillment_ids: None }],
                fulfillments: Some(vec![Fulfillment {
                    id: Some("f-1".to_string()),
                    customer: Some(Customer { person: Person { id: user.to_string() } }),
                }]),
            },
        },
    }
}

fn on_confirm(user: &str, job: &str) -> Json {
    obj(vec![
        (
            "context",
            obj(vec![
                ("transaction_id", Json::text("txn-1")),
                ("bpp_id", Json::text("bpp-B")),
                ("bpp_uri", Json::text("http://bpp-b")),
            ]),
        ),
        (
            "message",
            obj(vec![(
                "order",
                obj(vec![
                    ("id", Json::text("ord-1")),
                    ("items", Json::Array(vec![obj(vec![("id", Json::text(job))])])),
                    (
                        "fulfillments",
                        Json::Array(vec![obj(vec![
                            ("id", Json::text("f-1")),
                            ("customer", obj(vec![("person", obj(vec![("id", Json::text(user))]))])),
                        ])]),
                    ),
                ]),
            )]),
        ),
    ])
}

fn ok(body: Json) -> CallReply {
    CallReply { status: 200, body }
}

#[test]
fn apply_init_confirm_stores_and_returns_confirmation() {
    let mut record = Applications::new();
    let req = request("user-1", "job-1");
    let reply = handle_job_apply(&mut record, &req, ok(Json::Null), ok(on_confirm("user-1", "job-1")));
    assert_eq!(reply.status, 200);
    assert_eq!(render(&reply.body), render(&on_confirm("user-1", "job-1")));
    assert_eq!(record.rows.len(), 1);
    let row = &record.rows[0];
    assert_eq!(row.order_id, "ord-1");
    assert_eq!(row.status.as_deref(), Some("APPLIED"));
    assert_eq!(row.bpp_id, "bpp-B");
    assert_eq!(row.bpp_uri, "http://bpp-b");
    assert_eq!(row.transaction_id, "txn-1");
    assert_eq!(row.user_id, "user-1");
    assert_eq!(row.job_id, "job-1");
    assert_eq!(render(row.metadata.as_ref().unwrap()), render(&on_confirm("user-1", "job-1")));

    let again = handle_job_apply(&mut record, &req, ok(Json::Null), ok(on_confirm("user-1", "job-1")));
    assert_eq!(again.status, 200);
    assert_eq!(
        again.body.get("message").unwrap().as_str(),
        Some("User has already applied for this job")
    );
    assert_eq!(again.body.pointer("/application/order_id").unwrap().as_str(), Some("ord-1"));
    assert_eq!(record.rows.len(), 1);
}

#[test]
fn apply_stops_at_a_failed_call() {
    let mut record = Applications::new();
    let req = request("user-1", "job-1");
    let reply = handle_job_apply(
        &mut record,
        &req,
        error_reply(504, "Timeout waiting for on_init response"),
        ok(on_confirm("user-1", "job-1")),
    );
    assert_eq!(reply.status, 504);
    assert_eq!(render(&reply.body), "{\"error\":\"Timeout waiting for on_init response\"}");
    assert!(record.rows.is_empty());
    let reply = handle_job_apply(&mut record, &req, ok(Json::Null), error_reply(502, "down"));
    assert_eq!(reply.status, 502);
    assert!(record.rows.is_empty());
}

#[test]
fn apply_timeout_leaves_no_pending_call() {
    let mut correlator = Correlator::new();
    let waiter = correlator.begin("txn-1", "msg-1").unwrap();
    assert_eq!(waiter, 0);
    assert!(correlator.is_pending("txn-1", "msg-1"));
    assert_eq!(call_timeout_secs(), 10);
    let reply = conclude_call(&mut correlator, "txn-1", "msg-1", "init", CallEvent::TimedOut);
    assert_eq!(reply.status, 504);
    assert_eq!(render(&reply.body), "{\"error\":\"Timeout waiting for on_init response\"}");
    assert!(!correlator.is_pending("txn-1", "msg-1"));
    assert_eq!(resolve_callback(&mut correlator, WebhookAction::OnInit, "txn-1", "msg-1"), None);
    let mut record = Applications::new();
    let out = handle_job_apply(&mut record, &request("u", "j"), reply, ok(Json::Null));
    assert_eq!(out.status, 504);
    assert!(record.rows.is_empty());
}

#[test]
fn correlator_begin_deliver_expire() {
    let mut c = Correlator::new();
    assert_eq!(c.begin("t", "m1"), Ok(0));
    assert_eq!(c.begin("t", "m2"), Ok(1));
    assert_eq!(c.begin("t", "m1"), Err(CorrelatorError::AlreadyPending));
    assert_eq!(Correlator::key_of("t", "m1"), "t:m1");
    assert_eq!(c.deliver("t", "m2"), Some(1));
    assert_eq!(c.deliver("t", "m2"), None);
    assert!(c.expire("t", "m1"));
    assert!(!c.expire("t", "m1"));
    assert_eq!(c.deliver("t", "m1"), None);
    assert_eq!(c.begin("t", "m1"), Ok(2));
    assert_eq!(c.deliver("other", "m1"), None);
    assert!(c.is_pending("t", "m1"));
}

#[test]
fn conclude_call_replies_for_each_event() {
    let mut c = Correlator::new();
    c.begin("t", "m").unwrap();
    let r = conclude_call(&mut c, "t", "m", "select", CallEvent::Delivered(Json::Int(5)));
    assert_eq!((r.status, render(&r.body)), (200, "5".to_string()));
    assert!(c.is_pending("t", "m"));
    let r = conclude_call(&mut c, "t", "m", "select", CallEvent::Closed);
    assert_eq!(
        (r.status, render(&r.body)),
        (500, "{\"error\":\"Internal channel error receiving on_select\"}".to_string())
    );
    assert!(c.is_pending("t", "m"));
    let r = conclude_call(&mut c, "t", "m", "status", CallEvent::DispatchFailed("refused".to_string()));
    assert_eq!(
        (r.status, render(&r.body)),
        (502, "{\"error\":\"Error calling BAP adapter: refused\"}".to_string())
    );
    assert!(!c.is_pending("t", "m"));
    let r = conclude_call(&mut c, "t", "m", "status", CallEvent::TimedOut);
    assert_eq!(
        (r.status, render(&r.body)),
        (504, "{\"error\":\"Timeout waiting for on_status response\"}".to_string())
    );
}

#[test]
fn callbacks_resolve_waiters_once() {
    let mut c = Correlator::new();
    let w = c.begin("t", "m").unwrap();
    assert_eq!(resolve_callback(&mut c, WebhookAction::OnSearch, "t", "m"), None);
    assert_eq!(resolve_callback(&mut c, WebhookAction::Other, "t", "m"), None);
    assert!(c.is_pending("t", "m"));
    assert_eq!(resolve_callback(&mut c, WebhookAction::OnSelect, "t", "m"), Some(w));
    assert_eq!(resolve_callback(&mut c, WebhookAction::OnSelect, "t", "m"), None);
    assert_eq!(webhook_action("on_search"), WebhookAction::OnSearch);
    assert_eq!(webhook_action("on_select"), WebhookAction::OnSelect);
    assert_eq!(webhook_action("on_init"), WebhookAction::OnInit);
    assert_eq!(webhook_action("on_confirm"), WebhookAction::OnConfirm);
    assert_eq!(webhook_action("on_status"), WebhookAction::OnStatus);
    assert_eq!(webhook_action("on_cancel"), WebhookAction::Other);
}

#[test]
fn error_kinds_map_to_statuses() {
    assert_eq!(http_status(ErrorKind::ConfigInvalid), None);
    assert_eq!(http_status(ErrorKind::StoreUnavailable), Some(503));
    assert_eq!(http_status(ErrorKind::ExternalServiceError), Some(502));
    assert_eq!(http_status(ErrorKind::Timeout), Some(504));
    assert_eq!(http_status(ErrorKind::ValidationError), Some(400));
    assert_eq!(http_status(ErrorKind::Unauthorized), Some(401));
    assert_eq!(http_status(ErrorKind::Conflict), Some(200));
    assert_eq!(http_status(ErrorKind::NotFound), Some(404));
}

#[test]
fn api_key_must_equal_the_configured_one() {
    assert!(api_key_accepted("k1", Some("k1")));
    assert!(!api_key_accepted("k1", Some("k2")));
    assert!(!api_key_accepted("k1", Some("")));
    assert!(!api_key_accepted("k1", None));
    let r = unauthorized_reply();
    assert_eq!(r.status, 401);
    assert_eq!(
        render(&r.body),
        "{\"error\":\"Unauthorized\",\"message\":\"Invalid or missing X-API-KEY\"}"
    );
}

#[test]
fn extraction_falls_back_to_fulfilment_id_and_blanks() {
    let payload = obj(vec![(
        "message",
        obj(vec![(
            "order",
            obj(vec![("fulfillments", Json::Array(vec![obj(vec![("id", Json::text("f-9"))])]))]),
        )]),
    )]);
    let a = extract_application(&payload);
    assert_eq!(a.user_id, "f-9");
    assert_eq!(a.job_id, "");
    assert_eq!(a.order_id, "");
    assert_eq!(a.transaction_id, "");
    assert_eq!(a.status.as_deref(), Some("APPLIED"));
    let a = extract_application(&Json::Null);
    assert_eq!((a.user_id.as_str(), a.bpp_id.as_str()), ("", ""));
    let a = extract_application(&on_confirm("u-1", "j-1"));
    assert_eq!((a.user_id.as_str(), a.job_id.as_str(), a.order_id.as_str()), ("u-1", "j-1", "ord-1"));
}

#[test]
fn applications_are_listed_by_user_and_job() {
    let mut record = Applications::new();
    for (u, j, status) in [("u1", "j1", None), ("u1", "j2", Some("X")), ("u2", "j1", None), ("u1", "j1", None)] {
        record.store_job_applications(NewJobApplication {
            user_id: u.to_string(),
            job_id: j.to_string(),
            order_id: "o".to_string(),
            transaction_id: "t".to_string(),
            bpp_id: "b".to_string(),
            bpp_uri: "uri".to_string(),
            status: status.map(|s: &str| s.to_string()),
            metadata: None,
        });
    }
    assert_eq!(record.rows[0].status.as_deref(), Some("pending"));
    assert_eq!(record.rows[1].status.as_deref(), Some("X"));
    assert_eq!(record.get_job_applications(Some("u1"), None).len(), 3);
    assert_eq!(record.get_job_applications(Some("u1"), Some("j1")).len(), 1);
    assert_eq!(record.get_job_applications(None, Some("j1")).len(), 1);
    assert_eq!(record.get_job_applications(None, None).len(), 4);
    assert!(record.get_job_applications(Some("u3"), None).is_empty());
}

#[test]
fn apply_machine_walks_through_its_states() {
    let req = request("u", "j");
    let (s, step) = apply_next(ApplyState::Start, &req, ApplyEvent::Begin);
    assert!(matches!(s, ApplyState::AwaitLookup));
    assert!(matches!(step, ApplyStep::Lookup { ref user_id, ref job_id } if user_id == "u" && job_id == "j"));
    let (s, step) = apply_next(s, &req, ApplyEvent::Stored);
    assert!(matches!(s, ApplyState::AwaitLookup) && matches!(step, ApplyStep::Nothing));
    let (s, step) = apply_next(s, &req, ApplyEvent::NotFound);
    assert!(matches!(s, ApplyState::AwaitInit));
    assert!(matches!(step, ApplyStep::Call { action: "init" }));
    let (s, step) = apply_next(s, &req, ApplyEvent::CallReplied(ok(Json::Null)));
    assert!(matches!(s, ApplyState::AwaitConfirm));
    assert!(matches!(step, ApplyStep::Call { action: "confirm" }));
    let (s, step) = apply_next(s, &req, ApplyEvent::CallReplied(ok(on_confirm("u", "j"))));
    assert!(matches!(s, ApplyState::AwaitStore(_)));
    assert!(matches!(step, ApplyStep::Store(ref a) if a.order_id == "ord-1"));
    let (s, step) = apply_next(s, &req, ApplyEvent::StoreFailed);
    assert!(matches!(s, ApplyState::Done));
    assert!(matches!(step, ApplyStep::Reply(ref r) if r.status == 500
        && render(&r.body) == "{\"error\":\"Failed to store job application\"}"));
    let (_, step) = apply_next(ApplyState::AwaitLookup, &req, ApplyEvent::LookupFailed);
    assert!(matches!(step, ApplyStep::Reply(ref r) if r.status == 500
        && render(&r.body) == "{\"error\":\"Database error\"}"));
    let (s, step) = apply_next(ApplyState::Done, &req, ApplyEvent::Begin);
    assert!(matches!(s, ApplyState::Done) && matches!(step, ApplyStep::Nothing));
}

#[test]
fn drafts_are_replaced_per_user_job_and_provider() {
    let mut drafts = Drafts::new();
    let req = request("u1", "j1");
    let r = create_user_draft_application(&mut drafts, &req, 100);
    assert_eq!((r.status, render(&r.body)), (200, "{\"message\":\"Draft application saved successfully\"}".to_string()));
    assert_eq!(drafts.rows.len(), 1);
    assert_eq!((drafts.rows[0].id, drafts.rows[0].created_at, drafts.rows[0].modified_at), (1, 100, 100));
    assert_eq!(drafts.rows[0].bpp_id, "bpp-B");
    assert_eq!(
        render(drafts.rows[0].metadata.as_ref().unwrap()),
        "{\"order\":{\"fulfillments\":[{\"customer\":{\"person\":{\"id\":\"u1\"}},\"id\":\"f-1\"}],\"items\":[{\"id\":\"j1\"}],\"provider\":{\"id\":\"prov-1\"}}}"
    );
    let mut again = request("u1", "j1");
    again.context.bpp_uri = "http://moved".to_string();
    again.message.order.provider.id = "prov-2".to_string();
    let r = create_user_draft_application(&mut drafts, &again, 200);
    assert_eq!((r.status, render(&r.body)), (200, "{\"message\":\"Draft application saved successfully\"}".to_string()));
    assert_eq!(drafts.rows.len(), 1);
    assert_eq!((drafts.rows[0].id, drafts.rows[0].created_at, drafts.rows[0].modified_at), (1, 100, 200));
    assert_eq!(drafts.rows[0].bpp_uri, "http://moved");
    assert_eq!(
        drafts.rows[0].metadata.as_ref().unwrap().pointer("/order/provider/id").unwrap().as_str(),
        Some("prov-2")
    );
    assert_eq!(drafts.next_id, 2);
    create_user_draft_application(&mut drafts, &request("u2", "j1"), 300);
    assert_eq!(drafts.rows[1].id, 2);
    let mut elsewhere = request("u1", "j1");
    elsewhere.context.bpp_id = "bpp-C".to_string();
    create_user_draft_application(&mut drafts, &elsewhere, 400);
    assert_eq!(drafts.rows.len(), 3);
    assert_eq!((drafts.rows[2].id, drafts.rows[2].bpp_id.as_str()), (3, "bpp-C"));
    assert_eq!(drafts.rows[0].modified_at, 200);
    drafts.next_id = i32::MAX;
    let r = create_user_draft_application(&mut drafts, &request("u9", "j9"), 500);
    assert_eq!((r.status, render(&r.body)), (500, "{\"error\":\"Failed to save draft application\"}".to_string()));
    assert_eq!((drafts.rows.len(), drafts.next_id), (3, i32::MAX));
    let r = create_user_draft_application(&mut drafts, &again, 600);
    assert_eq!(r.status, 200);
    assert_eq!((drafts.rows[0].modified_at, drafts.next_id), (600, i32::MAX));
}

#[test]
fn drafts_update_and_delete_by_number() {
    let mut drafts = Drafts::new();
    create_user_draft_application(&mut drafts, &request("u1", "j1"), 100);
    let mut changed = request("u1", "j1");
    changed.context.bpp_uri = "http://moved".to_string();
    let r = update_user_draft_application(&mut drafts, 1, &changed, 150);
    assert_eq!(render(&r.body), "{\"message\":\"Draft application updated successfully\"}");
    assert_eq!((drafts.rows[0].bpp_uri.as_str(), drafts.rows[0].created_at, drafts.rows[0].modified_at), ("http://moved", 100, 150));
    update_user_draft_application(&mut drafts, 42, &changed, 160);
    assert_eq!(drafts.rows.len(), 1);
    assert_eq!(drafts.rows[0].modified_at, 150);
    let r = delete_user_draft_application(&mut drafts, 42);
    assert_eq!((r.status, render(&r.body)), (404, "{\"error\":\"Draft not found\"}".to_string()));
    let r = delete_user_draft_application(&mut drafts, 1);
    assert_eq!(r.status, 204);
    assert!(drafts.rows.is_empty());
    assert_eq!(drafts.delete_draft_application(1), Err(DraftError::NotFound));
}

#[test]
fn drafts_upsert_on_conflict_and_exhaustion() {
    let mut drafts = Drafts::new();
    let draft = |uri: &str| JobDraft {
        user_id: "u".to_string(),
        job_id: "j".to_string(),
        bpp_id: "b".to_string(),
        bpp_uri: uri.to_string(),
        metadata: None,
        id: None,
    };
    assert_eq!(drafts.upsert_draft_application(draft("a"), 1), Ok(()));
    assert_eq!(drafts.upsert_draft_application(draft("b"), 2), Ok(()));
    assert_eq!(drafts.rows.len(), 1);
    assert_eq!((drafts.rows[0].bpp_uri.as_str(), drafts.rows[0].modified_at), ("b", 2));
    assert_eq!(drafts.get_draft_applications(Some("u"), Some("j")).len(), 1);
    drafts.next_id = i32::MAX;
    let mut other = draft("c");
    other.job_id = "j2".to_string();
    assert_eq!(drafts.upsert_draft_application(other, 3), Err(DraftError::Exhausted));
    assert_eq!(drafts.rows.len(), 1);
}
