//! Synchronous calls: a request goes out to the adapter, and the caller
//! waits, for a bounded time, for the callback that answers it.

use crate::correlator::{pending_key, Correlator};
use crate::json::{Json, JsonValue};
use crate::models::object1;
use crate::text::same_text;
use vstd::prelude::*;
use vstd::string::StringExecFns;

verus! {

/// The kinds of error, as callers see them.
#[derive(Debug, Clone, Copy, PartialEq, Eq, Structural)]
pub enum ErrorKind {
    ConfigInvalid,
    StoreUnavailable,
    ExternalServiceError,
    Timeout,
    ValidationError,
    Unauthorized,
    Conflict,
    NotFound,
}

/// The HTTP status that an error kind is answered with. An invalid
/// configuration ends the start-up and is answered with none; an apply
/// that was made before is answered as a success.
pub open spec fn status_of(kind: ErrorKind) -> Option<u16> {
    match kind {
        ErrorKind::ConfigInvalid => None,
        ErrorKind::StoreUnavailable => Some(503),
        ErrorKind::ExternalServiceError => Some(502),
        ErrorKind::Timeout => Some(504),
        ErrorKind::ValidationError => Some(400),
        ErrorKind::Unauthorized => Some(401),
        ErrorKind::Conflict => Some(200),
        ErrorKind::NotFound => Some(404),
    }
}

/// The HTTP status that the error kind `kind` is answered with.
pub fn http_status(kind: ErrorKind) -> (out: Option<u16>)
    ensures
        out == status_of(kind),
{
    match kind {
        ErrorKind::ConfigInvalid => None,
        ErrorKind::StoreUnavailable => Some(503),
        ErrorKind::ExternalServiceError => Some(502),
        ErrorKind::Timeout => Some(504),
        ErrorKind::ValidationError => Some(400),
        ErrorKind::Unauthorized => Some(401),
        ErrorKind::Conflict => Some(200),
        ErrorKind::NotFound => Some(404),
    }
}

/// The seconds that a caller waits for a callback.
pub fn call_timeout_secs() -> (out: u64)
    ensures
        out == 10,
{
    10
}

/// A reply to a client: a status and a body.
pub struct CallReply {
    pub status: u16,
    pub body: Json,
}

/// A reply to a client, as a mathematical value.
pub struct CallReplyView {
    pub status: u16,
    pub body: JsonValue,
}

impl View for CallReply {
    type V = CallReplyView;

    open spec fn view(&self) -> CallReplyView {
        CallReplyView { status: self.status, body: self.body@ }
    }
}

/// The body of an error reply: `{error: ..}`.
pub open spec fn error_body(message: Seq<char>) -> JsonValue {
    object1("error"@, JsonValue::Str(message))
}

/// An error reply with the status `status` and the message `message`.
pub fn error_reply(status: u16, message: &str) -> (out: CallReply)
    ensures
        out@ == (CallReplyView { status, body: error_body(message@) }),
{
    CallReply { status, body: Json::empty_object().with_field("error", Json::text(message)) }
}

/// How the wait of a caller ended.
pub enum CallEvent {
    /// The request could not be handed to the adapter; with the reason.
    DispatchFailed(String),
    /// The callback came in; with its payload.
    Delivered(Json),
    /// The waiter was given up without a callback.
    Closed,
    /// The time ran out.
    TimedOut,
}

/// The reply that the end of a wait leads to, for the action `action`:
/// the callback's payload where it came in; a bad-gateway error where the
/// adapter could not be reached; a gateway timeout where the time ran
/// out; an internal error where the waiter was given up.
pub open spec fn reply_for(action: Seq<char>, event: CallEvent) -> CallReplyView {
    match event {
        CallEvent::DispatchFailed(reason) => CallReplyView {
            status: 502,
            body: error_body("Error calling BAP adapter: "@ + reason@),
        },
        CallEvent::Delivered(payload) => CallReplyView { status: 200, body: payload@ },
        CallEvent::Closed => CallReplyView {
            status: 500,
            body: error_body("Internal channel error receiving on_"@ + action),
        },
        CallEvent::TimedOut => CallReplyView {
            status: 504,
            body: error_body("Timeout waiting for on_"@ + action + " response"@),
        },
    }
}

/// Whether the end of a wait leaves the call in the registry for the
/// caller to remove: the adapter could not be reached, or the time ran
/// out.
pub open spec fn leaves_pending(event: CallEvent) -> bool {
    event is DispatchFailed || event is TimedOut
}

/// Concludes a synchronous call: removes the call from the registry
/// where its wait ended without a callback having taken it out, and
/// gives the reply for the client.
pub fn conclude_call(
    correlator: &mut Correlator,
    txn_id: &str,
    message_id: &str,
    action: &str,
    event: CallEvent,
) -> (out: CallReply)
    ensures
        out@ == reply_for(action@, event),
        final(correlator).next_waiter() == old(correlator).next_waiter(),
        final(correlator).entries() == if leaves_pending(event) {
            old(correlator).entries().remove(pending_key(txn_id@, message_id@))
        } else {
            old(correlator).entries()
        },
{
    match event {
        CallEvent::DispatchFailed(reason) => {
            correlator.expire(txn_id, message_id);
            let mut message = String::new();
            message.append("Error calling BAP adapter: ");
            message.append(reason.as_str());
            assert(message@ =~= "Error calling BAP adapter: "@ + reason@);
            error_reply(502, message.as_str())
        },
        CallEvent::Delivered(payload) => CallReply { status: 200, body: payload },
        CallEvent::Closed => {
            let mut message = String::new();
            message.append("Internal channel error receiving on_");
            message.append(action);
            assert(message@ =~= "Internal channel error receiving on_"@ + action@);
            error_reply(500, message.as_str())
        },
        CallEvent::TimedOut => {
            correlator.expire(txn_id, message_id);
            let mut message = String::new();
            message.append("Timeout waiting for on_");
            message.append(action);
            message.append(" response");
            assert(message@ =~= "Timeout waiting for on_"@ + action@ + " response"@);
            error_reply(504, message.as_str())
        },
    }
}

/// The callbacks that the webhook knows.
#[derive(Debug, Clone, Copy, PartialEq, Eq, Structural)]
pub enum WebhookAction {
    OnSearch,
    OnSelect,
    OnInit,
    OnConfirm,
    OnStatus,
    /// Any other action: acknowledged and left at that.
    Other,
}

/// The callback that the name `action` names.
pub open spec fn webhook_action_of(action: Seq<char>) -> WebhookAction {
    if action == "on_search"@ {
        WebhookAction::OnSearch
    } else if action == "on_select"@ {
        WebhookAction::OnSelect
    } else if action == "on_init"@ {
        WebhookAction::OnInit
    } else if action == "on_confirm"@ {
        WebhookAction::OnConfirm
    } else if action == "on_status"@ {
        WebhookAction::OnStatus
    } else {
        WebhookAction::Other
    }
}

/// The callback that the name `action` names.
pub fn webhook_action(action: &str) -> (out: WebhookAction)
    ensures
        out == webhook_action_of(action@),
{
    if same_text(action, "on_search") {
        WebhookAction::OnSearch
    } else if same_text(action, "on_select") {
        WebhookAction::OnSelect
    } else if same_text(action, "on_init") {
        WebhookAction::OnInit
    } else if same_text(action, "on_confirm") {
        WebhookAction::OnConfirm
    } else if same_text(action, "on_status") {
        WebhookAction::OnStatus
    } else {
        WebhookAction::Other
    }
}

/// Whether a callback answers a waiting caller: every known callback but
/// the one of a search does.
pub open spec fn answers_caller(action: WebhookAction) -> bool {
    action is OnSelect || action is OnInit || action is OnConfirm || action is OnStatus
}

/// Hands a callback to the registry: where the callback answers a
/// waiting caller, the call is taken out and its waiter returned, to be
/// resolved with the payload. A callback that no caller waits for, one
/// that comes late among them, changes nothing.
pub fn resolve_callback(
    correlator: &mut Correlator,
    action: WebhookAction,
    txn_id: &str,
    message_id: &str,
) -> (out: Option<u64>)
    ensures
        final(correlator).next_waiter() == old(correlator).next_waiter(),
        answers_caller(action) ==> out == crate::correlator::lookup(
            old(correlator).entries(),
            pending_key(txn_id@, message_id@),
        ) && final(correlator).entries() == old(correlator).entries().remove(
            pending_key(txn_id@, message_id@),
        ),
        !answers_caller(action) ==> out is None && final(correlator).entries() == old(
            correlator,
        ).entries(),
{
    match action {
        WebhookAction::OnSelect | WebhookAction::OnInit | WebhookAction::OnConfirm
        | WebhookAction::OnStatus => correlator.deliver(txn_id, message_id),
        _ => None,
    }
}

/// Whether a request may pass: it carries the configured key.
pub open spec fn key_accepted(expected: Seq<char>, provided: Option<Seq<char>>) -> bool {
    provided == Some(expected)
}

/// Whether a request with the API key `provided` may pass.
pub fn api_key_accepted(expected: &str, provided: Option<&str>) -> (out: bool)
    ensures
        out == key_accepted(expected@, crate::sweep::str_view(provided)),
{
    match provided {
        Some(key) => same_text(key, expected),
        None => false,
    }
}

/// The reply to a request without the configured key.
pub fn unauthorized_reply() -> (out: CallReply)
    ensures
        out@.status == 401,
        out@.body == JsonValue::Object(
            Map::empty().insert("error"@, JsonValue::Str("Unauthorized"@)).insert(
                "message"@,
                JsonValue::Str("Invalid or missing X-API-KEY"@),
            ),
        ),
{
    CallReply {
        status: 401,
        body: Json::empty_object().with_field("error", Json::text("Unauthorized")).with_field(
            "message",
            Json::text("Invalid or missing X-API-KEY"),
        ),
    }
}

} // verus!
