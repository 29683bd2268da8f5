//! Profile events: what an event asks for, and which entries of the
//! stream are acknowledged.

use crate::json::{Json, JsonValue};
use crate::models::{event_kind, event_name, AppEvent, EventRequest, EventResponse, EventType};
use crate::sweep::{doc_view, str_view, text_in, text_of_value};
use crate::text::{chars_of, contains_chars, has_substring};
use vstd::prelude::*;

verus! {

/// Why an event could not be handled.
#[derive(Debug, Clone, Copy, PartialEq, Eq, Structural)]
pub enum EventError {
    /// The payload names no profile: `profileId` is missing, is no
    /// string, or is empty.
    MissingProfileId,
}

impl EventError {
    /// The error in words.
    pub fn message(&self) -> (out: &'static str)
        ensures
            out@ == "Missing or invalid profileId in event payload"@,
    {
        "Missing or invalid profileId in event payload"
    }
}

/// The profile that an event is about: the `profileId` of its payload,
/// where that is a string that is not empty.
pub open spec fn profile_id_of(payload: JsonValue) -> Option<Seq<char>> {
    match text_of_value(payload.field("profileId"@)) {
        Some(id) => if id.len() > 0 {
            Some(id)
        } else {
            None
        },
        None => None,
    }
}

/// The profile that the event `event` is about.
pub fn extract_profile_id(event: &AppEvent) -> (out: Result<String, EventError>)
    ensures
        match out {
            Ok(id) => profile_id_of(event.payload@) == Some(id@),
            Err(e) => e == EventError::MissingProfileId && profile_id_of(event.payload@) is None,
        },
{
    match text_in(event.payload.get("profileId")) {
        Some(id) => if id.unicode_len() > 0 {
            Ok(id.to_owned())
        } else {
            Err(EventError::MissingProfileId)
        },
        None => Err(EventError::MissingProfileId),
    }
}

/// What an event asks for.
pub enum EventAction {
    /// Synchronise the profile with this identifier, then run a scoring
    /// pass.
    SyncProfile(String),
}

/// What the event `event` asks for: a created or updated profile is
/// synchronised.
pub fn handle_event(event: &AppEvent) -> (out: Result<EventAction, EventError>)
    ensures
        match out {
            Ok(EventAction::SyncProfile(id)) => profile_id_of(event.payload@) == Some(id@),
            Err(e) => e == EventError::MissingProfileId && profile_id_of(event.payload@) is None,
        },
{
    match event.event_type {
        EventType::ProfileCreated | EventType::ProfileUpdated => {
            match extract_profile_id(event) {
                Ok(id) => Ok(EventAction::SyncProfile(id)),
                Err(e) => Err(e),
            }
        },
    }
}

/// An event as a document: identifier, kind by its wire name, payload
/// and time of creation.
pub open spec fn event_value(
    id: Seq<char>,
    kind: EventType,
    payload: JsonValue,
    created_at: Seq<char>,
) -> JsonValue {
    JsonValue::Object(
        Map::empty().insert("id"@, JsonValue::Str(id)).insert(
            "event_type"@,
            JsonValue::Str(event_name(kind)),
        ).insert("payload"@, payload).insert("created_at"@, JsonValue::Str(created_at)),
    )
}

/// The event `event` as a document.
pub fn event_to_json(event: &AppEvent) -> (out: Json)
    ensures
        out@ == event_value(event.id@, event.event_type, event.payload@, event.created_at@),
{
    Json::empty_object().with_field("id", Json::Str(event.id.clone())).with_field(
        "event_type",
        Json::text(event.event_type.name()),
    ).with_field("payload", event.payload.duplicate()).with_field(
        "created_at",
        Json::Str(event.created_at.clone()),
    )
}

/// Whether a document is an event: an object with an identifier, a known
/// kind, a payload and a time of creation.
pub open spec fn is_event(doc: JsonValue) -> bool {
    &&& text_of_value(doc.field("id"@)) is Some
    &&& text_of_value(doc.field("event_type"@)) is Some
    &&& event_kind(text_of_value(doc.field("event_type"@))->0) is Some
    &&& doc.field("payload"@) is Some
    &&& text_of_value(doc.field("created_at"@)) is Some
}

/// The event that the document `doc` holds, where it holds one.
pub fn event_from_json(doc: &Json) -> (out: Option<AppEvent>)
    ensures
        out is Some <==> is_event(doc@),
        out matches Some(e) ==> {
            &&& Some(e.id@) == text_of_value(doc@.field("id"@))
            &&& Some(e.event_type) == event_kind(text_of_value(doc@.field("event_type"@))->0)
            &&& Some(e.payload@) == doc@.field("payload"@)
            &&& Some(e.created_at@) == text_of_value(doc@.field("created_at"@))
        },
{
    let id = match text_in(doc.get("id")) {
        Some(t) => t,
        None => {
            return None;
        },
    };
    let kind = match text_in(doc.get("event_type")) {
        Some(t) => match EventType::from_name(t) {
            Some(k) => k,
            None => {
                return None;
            },
        },
        None => {
            return None;
        },
    };
    let payload = match doc.get("payload") {
        Some(p) => p,
        None => {
            return None;
        },
    };
    let created_at = match text_in(doc.get("created_at")) {
        Some(t) => t,
        None => {
            return None;
        },
    };
    Some(
        AppEvent {
            id: id.to_owned(),
            event_type: kind,
            payload: payload.duplicate(),
            created_at: created_at.to_owned(),
        },
    )
}

/// The event that a client's request admits, with the identifier `id`,
/// created at `created_at`.
pub fn admit_event(request: EventRequest, id: String, created_at: String) -> (out: AppEvent)
    ensures
        out.id == id,
        out.event_type == request.event_type,
        out.payload == request.payload,
        out.created_at == created_at,
{
    AppEvent { id, event_type: request.event_type, payload: request.payload, created_at }
}

/// The answer to a client whose event was put on the stream `stream`.
pub fn event_response(event: &AppEvent, stream: &str) -> (out: EventResponse)
    ensures
        out.status@ == "ok"@,
        out.event_id@ == event.id@,
        out.stream@ == stream@,
        out.created_at@ == event.created_at@,
{
    EventResponse {
        status: "ok".to_owned(),
        event_id: event.id.clone(),
        stream: stream.to_owned(),
        created_at: event.created_at.clone(),
    }
}

/// What became of an entry of the stream.
#[derive(Debug, Clone, Copy, PartialEq, Eq, Structural)]
pub enum EntryOutcome {
    /// The entry holds no event that can be read.
    Unreadable,
    /// The handler of the event succeeded.
    Handled,
    /// The handler of the event failed.
    Failed,
}

/// Whether an entry is acknowledged: exactly where its handler
/// succeeded. Any other entry stays pending, to be delivered again.
pub fn should_ack(outcome: EntryOutcome) -> (out: bool)
    ensures
        out <==> outcome == EntryOutcome::Handled,
{
    match outcome {
        EntryOutcome::Handled => true,
        _ => false,
    }
}

/// The outcome of an entry at a place, where one is given.
pub open spec fn outcome_at(outcomes: Seq<EntryOutcome>, i: int) -> EntryOutcome {
    if 0 <= i < outcomes.len() {
        outcomes[i]
    } else {
        EntryOutcome::Failed
    }
}

/// The entries to acknowledge among the first `n`: those whose handler
/// succeeded, in order.
pub open spec fn acknowledged(ids: Seq<String>, outcomes: Seq<EntryOutcome>, n: int) -> Seq<
    Seq<char>,
>
    decreases n,
{
    if n <= 0 || n > ids.len() {
        Seq::empty()
    } else {
        let before = acknowledged(ids, outcomes, n - 1);
        if outcome_at(outcomes, n - 1) == EntryOutcome::Handled {
            before.push(ids[n - 1]@)
        } else {
            before
        }
    }
}

/// The texts in `ids`, in order.
pub open spec fn id_texts(ids: Seq<String>) -> Seq<Seq<char>> {
    Seq::new(ids.len(), |i: int| ids[i]@)
}

/// The entries of a read to acknowledge: those whose handler succeeded.
pub fn acks_for(ids: &Vec<String>, outcomes: &Vec<EntryOutcome>) -> (out: Vec<String>)
    ensures
        id_texts(out@) == acknowledged(ids@, outcomes@, ids@.len() as int),
{
    let mut out: Vec<String> = Vec::new();
    let mut i: usize = 0;
    assert(id_texts(out@) =~= acknowledged(ids@, outcomes@, 0));
    while i < ids.len()
        invariant
            i <= ids.len(),
            id_texts(out@) == acknowledged(ids@, outcomes@, i as int),
        decreases ids.len() - i,
    {
        let ghost before = id_texts(out@);
        let outcome = if i < outcomes.len() {
            outcomes[i]
        } else {
            EntryOutcome::Failed
        };
        if should_ack(outcome) {
            out.push(ids[i].clone());
            assert(id_texts(out@) =~= before.push(ids@[i as int]@));
        }
        i += 1;
    }
    out
}

/// An entry is acknowledged if and only if its handler succeeded.
pub proof fn lemma_ack_iff_handled(ids: Seq<String>, outcomes: Seq<EntryOutcome>, n: int, i: int)
    requires
        0 <= i < n <= ids.len(),
        forall|a: int, b: int| 0 <= a < b < ids.len() ==> ids[a]@ != ids[b]@,
    ensures
        acknowledged(ids, outcomes, n).contains(ids[i]@) <==> outcome_at(outcomes, i)
            == EntryOutcome::Handled,
    decreases n,
{
    let all = acknowledged(ids, outcomes, n);
    let before = acknowledged(ids, outcomes, n - 1);
    lemma_acknowledged_within(ids, outcomes, n - 1);
    if i < n - 1 {
        lemma_ack_iff_handled(ids, outcomes, n - 1, i);
        if outcome_at(outcomes, n - 1) == EntryOutcome::Handled {
            if before.contains(ids[i]@) {
                let k = choose|k: int| 0 <= k < before.len() && before[k] == ids[i]@;
                assert(all[k] == ids[i]@);
            }
            if all.contains(ids[i]@) {
                let k = choose|k: int| 0 <= k < all.len() && all[k] == ids[i]@;
                if k == before.len() {
                    assert(ids[n - 1]@ == ids[i]@);
                } else {
                    assert(before[k] == ids[i]@);
                }
            }
        }
    } else {
        if outcome_at(outcomes, i) == EntryOutcome::Handled {
            assert(all[before.len() as int] == ids[i]@);
        } else {
            if before.contains(ids[i]@) {
                let k = choose|k: int| 0 <= k < before.len() && before[k] == ids[i]@;
                assert(is_read(ids, n - 1, before[k]));
                let j = choose|j: int|
                    0 <= j < n - 1 && j < ids.len() && (#[trigger] ids[j])@ == before[k];
                assert(ids[j]@ == ids[i]@);
            }
        }
    }
}

/// Whether `text` is the identifier of one of the first `n` entries.
pub open spec fn is_read(ids: Seq<String>, n: int, text: Seq<char>) -> bool {
    exists|j: int| 0 <= j < n && j < ids.len() && (#[trigger] ids[j])@ == text
}

/// Every acknowledged entry is one of the entries read.
pub proof fn lemma_acknowledged_within(ids: Seq<String>, outcomes: Seq<EntryOutcome>, n: int)
    requires
        0 <= n <= ids.len(),
    ensures
        forall|k: int|
            0 <= k < acknowledged(ids, outcomes, n).len() ==> is_read(
                ids,
                n,
                #[trigger] acknowledged(ids, outcomes, n)[k],
            ),
    decreases n,
{
    if n > 0 {
        lemma_acknowledged_within(ids, outcomes, n - 1);
        let all = acknowledged(ids, outcomes, n);
        let before = acknowledged(ids, outcomes, n - 1);
        assert forall|k: int| 0 <= k < all.len() implies is_read(ids, n, #[trigger] all[k]) by {
            if k < before.len() {
                assert(all[k] == before[k]);
                assert(is_read(ids, n - 1, before[k]));
                let j = choose|j: int|
                    0 <= j < n - 1 && j < ids.len() && (#[trigger] ids[j])@ == before[k];
                assert(ids[j]@ == all[k]);
            } else {
                assert(ids[n - 1]@ == all[k]);
            }
        }
    }
}

/// Whether the store's refusal to create the consumer group says that
/// the group is there already.
pub open spec fn is_busy_group(message: Seq<char>) -> bool {
    has_substring(message, "BUSYGROUP"@)
}

/// Whether the consumer group is there after the attempt to create it:
/// it was created, or it was there already.
pub fn group_ready(creation: Result<(), String>) -> (out: Result<(), String>)
    ensures
        match creation {
            Ok(_) => out is Ok,
            Err(message) => if is_busy_group(message@) {
                out is Ok
            } else {
                out == Err::<(), String>(message)
            },
        },
{
    match creation {
        Ok(_) => Ok(()),
        Err(message) => {
            let text = chars_of(message.as_str());
            let mark = chars_of("BUSYGROUP");
            if contains_chars(&text, &mark) {
                Ok(())
            } else {
                Err(message)
            }
        },
    }
}

/// The number of entries that one read asks for.
pub fn read_count() -> (out: usize)
    ensures
        out == 10,
{
    10
}

/// The milliseconds for which one read waits for entries.
pub fn read_block_millis() -> (out: u64)
    ensures
        out == 5000,
{
    5000
}

/// The seconds to wait before connecting again after the connection
/// failed.
pub fn reconnect_backoff_secs() -> (out: u64)
    ensures
        out == 3,
{
    3
}

} // verus!
