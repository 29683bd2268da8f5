//! Applications for jobs: the record of them, and the two-step call that
//! makes one.

use crate::callflow::{error_body, error_reply, CallReply, CallReplyView};
use crate::json::{Json, JsonValue};
use crate::models::JobRequest;
use crate::seqs::lemma_filter_push;
use crate::sweep::{doc_view, str_view, text_in, text_of_value};
use crate::text::same_text;
use vstd::prelude::*;

verus! {

/// An application of a user for a job.
pub struct NewJobApplication {
    pub user_id: String,
    pub job_id: String,
    pub order_id: String,
    pub transaction_id: String,
    pub bpp_id: String,
    pub bpp_uri: String,
    pub status: Option<String>,
    pub metadata: Option<Json>,
}

/// An application, as a mathematical value.
pub struct ApplicationView {
    pub user_id: Seq<char>,
    pub job_id: Seq<char>,
    pub order_id: Seq<char>,
    pub transaction_id: Seq<char>,
    pub bpp_id: Seq<char>,
    pub bpp_uri: Seq<char>,
    pub status: Option<Seq<char>>,
    pub metadata: Option<JsonValue>,
}

impl View for NewJobApplication {
    type V = ApplicationView;

    open spec fn view(&self) -> ApplicationView {
        ApplicationView {
            user_id: self.user_id@,
            job_id: self.job_id@,
            order_id: self.order_id@,
            transaction_id: self.transaction_id@,
            bpp_id: self.bpp_id@,
            bpp_uri: self.bpp_uri@,
            status: match self.status {
                Some(s) => Some(s@),
                None => None,
            },
            metadata: match self.metadata {
                Some(m) => Some(m@),
                None => None,
            },
        }
    }
}

impl NewJobApplication {
    /// A copy of this application.
    pub fn duplicate(&self) -> (out: NewJobApplication)
        ensures
            out@ == self@,
    {
        NewJobApplication {
            user_id: self.user_id.clone(),
            job_id: self.job_id.clone(),
            order_id: self.order_id.clone(),
            transaction_id: self.transaction_id.clone(),
            bpp_id: self.bpp_id.clone(),
            bpp_uri: self.bpp_uri.clone(),
            status: match &self.status {
                Some(s) => Some(s.clone()),
                None => None,
            },
            metadata: match &self.metadata {
                Some(m) => Some(m.duplicate()),
                None => None,
            },
        }
    }
}

/// The text of a string value, or the empty text.
pub open spec fn text_or_blank(value: Option<JsonValue>) -> Seq<char> {
    match text_of_value(value) {
        Some(t) => t,
        None => Seq::empty(),
    }
}

/// The first of the items of an array value.
pub open spec fn first_of(value: Option<JsonValue>) -> Option<JsonValue> {
    match value {
        Some(v) => v.element(0),
        None => None,
    }
}

/// The user that a confirmation names: the person of the first
/// fulfilment's customer, or else the first fulfilment's identifier, or
/// else the empty text.
pub open spec fn confirmed_user(payload: JsonValue) -> Seq<char> {
    match first_of(payload.pointer("/message/order/fulfillments"@)) {
        Some(f) => match text_of_value(f.pointer("/customer/person/id"@)) {
            Some(id) => id,
            None => text_or_blank(f.field("id"@)),
        },
        None => Seq::empty(),
    }
}

/// The job that a confirmation names: the first item of the order.
pub open spec fn confirmed_job(payload: JsonValue) -> Seq<char> {
    match first_of(payload.pointer("/message/order/items"@)) {
        Some(item) => text_or_blank(item.field("id"@)),
        None => Seq::empty(),
    }
}

/// The application that a confirmation records: transaction and
/// provider from its context, user, job and order from its order, the
/// status `APPLIED`, and the whole confirmation as metadata. What the
/// confirmation does not name is recorded as the empty text.
pub open spec fn confirmed_application(payload: JsonValue) -> ApplicationView {
    ApplicationView {
        user_id: confirmed_user(payload),
        job_id: confirmed_job(payload),
        order_id: text_or_blank(payload.pointer("/message/order/id"@)),
        transaction_id: text_or_blank(payload.pointer("/context/transaction_id"@)),
        bpp_id: text_or_blank(payload.pointer("/context/bpp_id"@)),
        bpp_uri: text_or_blank(payload.pointer("/context/bpp_uri"@)),
        status: Some("APPLIED"@),
        metadata: Some(payload),
    }
}

/// The text of `value`, or the empty text.
fn text_or_blank_in(value: Option<&Json>) -> (out: String)
    ensures
        out@ == text_or_blank(doc_view(value)),
{
    match text_in(value) {
        Some(t) => t.to_owned(),
        None => String::new(),
    }
}

/// The first of the items of `value`.
fn first_in(value: Option<&Json>) -> (out: Option<&Json>)
    ensures
        doc_view(out) == first_of(doc_view(value)),
{
    match value {
        Some(v) => v.at(0),
        None => None,
    }
}

/// The application that the confirmation `payload` records.
pub fn extract_application(payload: &Json) -> (out: NewJobApplication)
    ensures
        out@ == confirmed_application(payload@),
{
    let user_id = match first_in(payload.pointer("/message/order/fulfillments")) {
        Some(f) => match text_in(f.pointer("/customer/person/id")) {
            Some(id) => id.to_owned(),
            None => text_or_blank_in(f.get("id")),
        },
        None => String::new(),
    };
    let job_id = match first_in(payload.pointer("/message/order/items")) {
        Some(item) => text_or_blank_in(item.get("id")),
        None => String::new(),
    };
    NewJobApplication {
        user_id,
        job_id,
        order_id: text_or_blank_in(payload.pointer("/message/order/id")),
        transaction_id: text_or_blank_in(payload.pointer("/context/transaction_id")),
        bpp_id: text_or_blank_in(payload.pointer("/context/bpp_id")),
        bpp_uri: text_or_blank_in(payload.pointer("/context/bpp_uri")),
        status: Some("APPLIED".to_owned()),
        metadata: Some(payload.duplicate()),
    }
}

/// The applications in `rows`, in order.
pub open spec fn applications_of(rows: Seq<NewJobApplication>) -> Seq<ApplicationView> {
    Seq::new(rows.len(), |i: int| rows[i]@)
}

/// The test that an application is of the user and for the job asked
/// for, as far as they are asked for.
pub open spec fn application_matches(user: Option<Seq<char>>, job: Option<Seq<char>>) -> spec_fn(
    ApplicationView,
) -> bool {
    |a: ApplicationView|
        (match user {
            Some(u) => a.user_id == u,
            None => true,
        }) && (match job {
            Some(j) => a.job_id == j,
            None => true,
        })
}

/// The applications asked for: those of the user and for the job, as far
/// as they are asked for; one at most where a job is asked for.
pub open spec fn applications_matching(
    rows: Seq<ApplicationView>,
    user: Option<Seq<char>>,
    job: Option<Seq<char>>,
) -> Seq<ApplicationView> {
    let found = rows.filter(application_matches(user, job));
    if job is Some && found.len() > 1 {
        found.take(1)
    } else {
        found
    }
}

/// The row that is stored for an application: its status is `pending`
/// where it has none.
pub open spec fn stored_application(a: ApplicationView) -> ApplicationView {
    ApplicationView {
        status: Some(
            match a.status {
                Some(s) => s,
                None => "pending"@,
            },
        ),
        ..a
    }
}

/// The record of applications.
pub struct Applications {
    pub rows: Vec<NewJobApplication>,
}

impl View for Applications {
    type V = Seq<ApplicationView>;

    open spec fn view(&self) -> Seq<ApplicationView> {
        applications_of(self.rows@)
    }
}

impl Applications {
    /// A record without applications.
    pub fn new() -> (out: Applications)
        ensures
            out@ == Seq::<ApplicationView>::empty(),
    {
        let out = Applications { rows: Vec::new() };
        assert(out@ =~= Seq::<ApplicationView>::empty());
        out
    }

    /// The applications of the user and for the job asked for.
    pub fn get_job_applications(&self, user_id: Option<&str>, job_id: Option<&str>) -> (out: Vec<
        NewJobApplication,
    >)
        ensures
            applications_of(out@) == applications_matching(
                self@,
                str_view(user_id),
                str_view(job_id),
            ),
    {
        let ghost wanted = application_matches(str_view(user_id), str_view(job_id));
        let ghost all = self@;
        let mut out: Vec<NewJobApplication> = Vec::new();
        let mut i: usize = 0;
        assert(all.take(0) =~= Seq::empty());
        assert(applications_of(out@) =~= all.take(0).filter(wanted));
        while i < self.rows.len()
            invariant
                i <= self.rows.len(),
                all == self@,
                wanted == application_matches(str_view(user_id), str_view(job_id)),
                applications_of(out@) == all.take(i as int).filter(wanted),
            decreases self.rows.len() - i,
        {
            let row = &self.rows[i];
            let ghost before = applications_of(out@);
            proof {
                assert(all.take(i + 1) =~= all.take(i as int).push(row@));
                lemma_filter_push(all.take(i as int), row@, wanted);
            }
            let user_ok = match user_id {
                Some(u) => same_text(row.user_id.as_str(), u),
                None => true,
            };
            let job_ok = match job_id {
                Some(j) => same_text(row.job_id.as_str(), j),
                None => true,
            };
            if user_ok && job_ok {
                out.push(row.duplicate());
                assert(applications_of(out@) =~= before.push(row@));
            }
            i += 1;
        }
        assert(all.take(self.rows.len() as int) =~= all);
        if job_id.is_some() && out.len() > 1 {
            let ghost found = applications_of(out@);
            out.truncate(1);
            assert(applications_of(out@) =~= found.take(1));
        }
        out
    }

    /// Stores an application.
    pub fn store_job_applications(&mut self, data: NewJobApplication)
        ensures
            final(self)@ == old(self)@.push(stored_application(data@)),
    {
        let ghost before = self@;
        let NewJobApplication {
            user_id,
            job_id,
            order_id,
            transaction_id,
            bpp_id,
            bpp_uri,
            status,
            metadata,
        } = data;
        let status = match status {
            Some(s) => s,
            None => "pending".to_owned(),
        };
        self.rows.push(
            NewJobApplication {
                user_id,
                job_id,
                order_id,
                transaction_id,
                bpp_id,
                bpp_uri,
                status: Some(status),
                metadata,
            },
        );
        assert(self@ =~= before.push(stored_application(data@)));
    }
}

/// Where an apply stands.
pub enum ApplyState {
    /// Nothing was done yet.
    Start,
    /// The record is asked whether the user applied for the job before.
    AwaitLookup,
    /// The answer to `init` is waited for.
    AwaitInit,
    /// The answer to `confirm` is waited for.
    AwaitConfirm,
    /// The record is asked to store the application; with the
    /// confirmation.
    AwaitStore(Json),
    /// The client was answered.
    Done,
}

/// What happened to an apply.
pub enum ApplyEvent {
    /// The client's request came in.
    Begin,
    /// The record could not be asked.
    LookupFailed,
    /// The user applied for the job before; with that application as a
    /// document.
    Found(Json),
    /// The user did not apply for the job before.
    NotFound,
    /// A call to the network ended; with the reply it led to.
    CallReplied(CallReply),
    /// The application was stored.
    Stored,
    /// The application could not be stored.
    StoreFailed,
}

/// What an apply does next.
pub enum ApplyStep {
    /// Ask the record for applications of this user for this job.
    Lookup { user_id: String, job_id: String },
    /// Call the network with this action and wait for the callback.
    Call { action: &'static str },
    /// Store this application.
    Store(NewJobApplication),
    /// Answer the client.
    Reply(CallReply),
    /// Nothing: the event does not belong to where the apply stands.
    Nothing,
}

/// Where an apply stands, as a mathematical value.
pub enum ApplyStateView {
    Start,
    AwaitLookup,
    AwaitInit,
    AwaitConfirm,
    AwaitStore(JsonValue),
    Done,
}

/// What an apply does next, as a mathematical value.
pub enum ApplyStepView {
    Lookup { user_id: Seq<char>, job_id: Seq<char> },
    Call { action: Seq<char> },
    Store(ApplicationView),
    Reply(CallReplyView),
    Nothing,
}

impl View for ApplyState {
    type V = ApplyStateView;

    open spec fn view(&self) -> ApplyStateView {
        match self {
            ApplyState::Start => ApplyStateView::Start,
            ApplyState::AwaitLookup => ApplyStateView::AwaitLookup,
            ApplyState::AwaitInit => ApplyStateView::AwaitInit,
            ApplyState::AwaitConfirm => ApplyStateView::AwaitConfirm,
            ApplyState::AwaitStore(p) => ApplyStateView::AwaitStore(p@),
            ApplyState::Done => ApplyStateView::Done,
        }
    }
}

impl View for ApplyStep {
    type V = ApplyStepView;

    open spec fn view(&self) -> ApplyStepView {
        match self {
            ApplyStep::Lookup { user_id, job_id } => ApplyStepView::Lookup {
                user_id: user_id@,
                job_id: job_id@,
            },
            ApplyStep::Call { action } => ApplyStepView::Call { action: action@ },
            ApplyStep::Store(a) => ApplyStepView::Store(a@),
            ApplyStep::Reply(r) => ApplyStepView::Reply(r@),
            ApplyStep::Nothing => ApplyStepView::Nothing,
        }
    }
}

/// The reply to a user who applied for the job before: a success, with
/// the application that is on record.
pub open spec fn already_applied(application: JsonValue) -> CallReplyView {
    CallReplyView {
        status: 200,
        body: JsonValue::Object(
            Map::empty().insert(
                "message"@,
                JsonValue::Str("User has already applied for this job"@),
            ).insert("application"@, application),
        ),
    }
}

/// The transition of an apply: the state and the step that an event leads
/// to from a state.
/// - The request is looked up in the record first.
/// - A user who applied before is answered with that application; no
///   call is made and nothing is stored.
/// - Otherwise `init` is called, then `confirm`; a call that fails ends
///   the apply with its reply.
/// - The confirmation is stored as an application and returned.
pub open spec fn apply_transition(
    state: ApplyStateView,
    request: JobRequest,
    event: ApplyEvent,
) -> (ApplyStateView, ApplyStepView) {
    match (state, event) {
        (ApplyStateView::Start, ApplyEvent::Begin) => (
            ApplyStateView::AwaitLookup,
            ApplyStepView::Lookup { user_id: request.applicant(), job_id: request.job() },
        ),
        (ApplyStateView::AwaitLookup, ApplyEvent::LookupFailed) => (
            ApplyStateView::Done,
            ApplyStepView::Reply(
                CallReplyView { status: 500, body: error_body("Database error"@) },
            ),
        ),
        (ApplyStateView::AwaitLookup, ApplyEvent::Found(a)) => (
            ApplyStateView::Done,
            ApplyStepView::Reply(already_applied(a@)),
        ),
        (ApplyStateView::AwaitLookup, ApplyEvent::NotFound) => (
            ApplyStateView::AwaitInit,
            ApplyStepView::Call { action: "init"@ },
        ),
        (ApplyStateView::AwaitInit, ApplyEvent::CallReplied(r)) => if r.status == 200 {
            (ApplyStateView::AwaitConfirm, ApplyStepView::Call { action: "confirm"@ })
        } else {
            (ApplyStateView::Done, ApplyStepView::Reply(r@))
        },
        (ApplyStateView::AwaitConfirm, ApplyEvent::CallReplied(r)) => if r.status == 200 {
            (
                ApplyStateView::AwaitStore(r.body@),
                ApplyStepView::Store(confirmed_application(r.body@)),
            )
        } else {
            (ApplyStateView::Done, ApplyStepView::Reply(r@))
        },
        (ApplyStateView::AwaitStore(p), ApplyEvent::Stored) => (
            ApplyStateView::Done,
            ApplyStepView::Reply(CallReplyView { status: 200, body: p }),
        ),
        (ApplyStateView::AwaitStore(p), ApplyEvent::StoreFailed) => (
            ApplyStateView::Done,
            ApplyStepView::Reply(
                CallReplyView {
                    status: 500,
                    body: error_body("Failed to store job application"@),
                },
            ),
        ),
        (s, _) => (s, ApplyStepView::Nothing),
    }
}

/// Advances an apply by one event.
pub fn apply_next(state: ApplyState, request: &JobRequest, event: ApplyEvent) -> (out: (
    ApplyState,
    ApplyStep,
))
    ensures
        (out.0@, out.1@) == apply_transition(state@, *request, event),
{
    match (state, event) {
        (ApplyState::Start, ApplyEvent::Begin) => (
            ApplyState::AwaitLookup,
            ApplyStep::Lookup { user_id: request.user_id(), job_id: request.job_id() },
        ),
        (ApplyState::AwaitLookup, ApplyEvent::LookupFailed) => (
            ApplyState::Done,
            ApplyStep::Reply(error_reply(500, "Database error")),
        ),
        (ApplyState::AwaitLookup, ApplyEvent::Found(a)) => (
            ApplyState::Done,
            ApplyStep::Reply(
                CallReply {
                    status: 200,
                    body: Json::empty_object().with_field(
                        "message",
                        Json::text("User has already applied for this job"),
                    ).with_field("application", a),
                },
            ),
        ),
        (ApplyState::AwaitLookup, ApplyEvent::NotFound) => (
            ApplyState::AwaitInit,
            ApplyStep::Call { action: "init" },
        ),
        (ApplyState::AwaitInit, ApplyEvent::CallReplied(r)) => if r.status == 200 {
            (ApplyState::AwaitConfirm, ApplyStep::Call { action: "confirm" })
        } else {
            (ApplyState::Done, ApplyStep::Reply(r))
        },
        (ApplyState::AwaitConfirm, ApplyEvent::CallReplied(r)) => if r.status == 200 {
            let application = extract_application(&r.body);
            (ApplyState::AwaitStore(r.body), ApplyStep::Store(application))
        } else {
            (ApplyState::Done, ApplyStep::Reply(r))
        },
        (ApplyState::AwaitStore(p), ApplyEvent::Stored) => (
            ApplyState::Done,
            ApplyStep::Reply(CallReply { status: 200, body: p }),
        ),
        (ApplyState::AwaitStore(p), ApplyEvent::StoreFailed) => (
            ApplyState::Done,
            ApplyStep::Reply(error_reply(500, "Failed to store job application")),
        ),
        (s, _) => (s, ApplyStep::Nothing),
    }
}

/// An application as a document, as it is shown to a client.
pub open spec fn application_value(a: ApplicationView) -> JsonValue {
    JsonValue::Object(
        Map::empty().insert("user_id"@, JsonValue::Str(a.user_id)).insert(
            "job_id"@,
            JsonValue::Str(a.job_id),
        ).insert("order_id"@, JsonValue::Str(a.order_id)).insert(
            "transaction_id"@,
            JsonValue::Str(a.transaction_id),
        ).insert("bpp_id"@, JsonValue::Str(a.bpp_id)).insert(
            "bpp_uri"@,
            JsonValue::Str(a.bpp_uri),
        ).insert(
            "status"@,
            match a.status {
                Some(s) => JsonValue::Str(s),
                None => JsonValue::Null,
            },
        ).insert(
            "metadata"@,
            match a.metadata {
                Some(m) => m,
                None => JsonValue::Null,
            },
        ),
    )
}

/// The application `a` as a document.
pub fn application_json(a: &NewJobApplication) -> (out: Json)
    ensures
        out@ == application_value(a@),
{
    let status = match &a.status {
        Some(s) => Json::Str(s.clone()),
        None => Json::Null,
    };
    let metadata = match &a.metadata {
        Some(m) => m.duplicate(),
        None => Json::Null,
    };
    Json::empty_object().with_field("user_id", Json::Str(a.user_id.clone())).with_field(
        "job_id",
        Json::Str(a.job_id.clone()),
    ).with_field("order_id", Json::Str(a.order_id.clone())).with_field(
        "transaction_id",
        Json::Str(a.transaction_id.clone()),
    ).with_field("bpp_id", Json::Str(a.bpp_id.clone())).with_field(
        "bpp_uri",
        Json::Str(a.bpp_uri.clone()),
    ).with_field("status", status).with_field("metadata", metadata)
}

/// The record after an apply whose calls were answered with `init` and
/// `confirm`: as before where the user applied for the job before, or
/// where one of the calls failed; with the confirmed application added
/// otherwise.
pub open spec fn applied(
    rows: Seq<ApplicationView>,
    request: JobRequest,
    init: CallReplyView,
    confirm: CallReplyView,
) -> Seq<ApplicationView> {
    if applications_matching(rows, Some(request.applicant()), Some(request.job())).len() > 0 {
        rows
    } else if init.status == 200 && confirm.status == 200 {
        rows.push(stored_application(confirmed_application(confirm.body)))
    } else {
        rows
    }
}

/// An apply against the record in memory, for calls that are answered
/// with `init` and `confirm`: runs the apply from its start to its reply.
pub fn handle_job_apply(
    record: &mut Applications,
    request: &JobRequest,
    init: CallReply,
    confirm: CallReply,
) -> (out: CallReply)
    ensures
        final(record)@ == applied(old(record)@, *request, init@, confirm@),
        applications_matching(
            old(record)@,
            Some(request.applicant()),
            Some(request.job()),
        ).len() > 0 ==> out@ == already_applied(
            application_value(
                applications_matching(
                    old(record)@,
                    Some(request.applicant()),
                    Some(request.job()),
                )[0],
            ),
        ),
        applications_matching(
            old(record)@,
            Some(request.applicant()),
            Some(request.job()),
        ).len() == 0 ==> out@ == if init@.status != 200 {
            init@
        } else {
            confirm@
        },
{
    let (state, step) = apply_next(ApplyState::Start, request, ApplyEvent::Begin);
    let found = match &step {
        ApplyStep::Lookup { user_id, job_id } => record.get_job_applications(
            Some(user_id.as_str()),
            Some(job_id.as_str()),
        ),
        _ => Vec::new(),
    };
    if found.len() > 0 {
        assert(applications_of(found@)[0] == found@[0]@);
        let (_, step) = apply_next(state, request, ApplyEvent::Found(application_json(&found[0])));
        return match step {
            ApplyStep::Reply(r) => r,
            _ => error_reply(500, "Database error"),
        };
    }
    let (state, _) = apply_next(state, request, ApplyEvent::NotFound);
    let ghost init_view = init@;
    let (state, step) = apply_next(state, request, ApplyEvent::CallReplied(init));
    match step {
        ApplyStep::Reply(r) => {
            return r;
        },
        _ => {},
    }
    let (state, step) = apply_next(state, request, ApplyEvent::CallReplied(confirm));
    match step {
        ApplyStep::Store(application) => {
            record.store_job_applications(application);
            let (_, step) = apply_next(state, request, ApplyEvent::Stored);
            match step {
                ApplyStep::Reply(r) => r,
                _ => error_reply(500, "Database error"),
            }
        },
        ApplyStep::Reply(r) => r,
        _ => error_reply(500, "Database error"),
    }
}

/// Apply is idempotent: where the confirmation names the user and the
/// job of the request, a second apply adds nothing to what the first one
/// recorded.
pub proof fn lemma_apply_idempotent(
    rows: Seq<ApplicationView>,
    request: JobRequest,
    init1: CallReplyView,
    confirm1: CallReplyView,
    init2: CallReplyView,
    confirm2: CallReplyView,
)
    requires
        init1.status == 200,
        confirm1.status == 200,
        confirmed_user(confirm1.body) == request.applicant(),
        confirmed_job(confirm1.body) == request.job(),
    ensures
        applied(applied(rows, request, init1, confirm1), request, init2, confirm2) == applied(
            rows,
            request,
            init1,
            confirm1,
        ),
        applications_matching(rows, Some(request.applicant()), Some(request.job())).len() == 0
            ==> applied(rows, request, init1, confirm1).len() == rows.len() + 1,
{
    let wanted = application_matches(Some(request.applicant()), Some(request.job()));
    let once = applied(rows, request, init1, confirm1);
    if applications_matching(rows, Some(request.applicant()), Some(request.job())).len() == 0 {
        let added = stored_application(confirmed_application(confirm1.body));
        assert(once == rows.push(added));
        lemma_filter_push(rows, added, wanted);
        assert(wanted(added));
        assert(once.filter(wanted).len() > 0);
    }
}

} // verus!
