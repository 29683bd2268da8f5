//! The messages that clients send and the envelopes of the network.

use crate::json::{lemma_array_view, values_of, Json, JsonValue};
use crate::text::{chars_of, same_chars};
use vstd::prelude::*;

verus! {

/// The part of the envelope that a client supplies.
#[derive(Debug, Clone)]
pub struct MinimalContext {
    pub transaction_id: String,
    pub bpp_id: String,
    pub bpp_uri: String,
}

/// The envelope carried on every network message.
#[derive(Debug, Clone)]
pub struct Context {
    pub transaction_id: String,
    pub message_id: String,
    pub action: String,
    pub bap_id: String,
    pub bap_uri: String,
    pub bpp_id: Option<String>,
    pub bpp_uri: Option<String>,
    pub domain: String,
    pub version: String,
    pub ttl: String,
    pub timestamp: String,
}

#[derive(Debug, Clone)]
pub struct Person {
    pub id: String,
}

#[derive(Debug, Clone)]
pub struct Customer {
    pub person: Person,
}

/// How an order is fulfilled: here, who applies.
#[derive(Debug, Clone)]
pub struct Fulfillment {
    pub id: Option<String>,
    pub customer: Option<Customer>,
}

/// A request to apply for a job, or to keep a draft of one.
#[derive(Debug, Clone)]
pub struct JobRequest {
    pub context: MinimalContext,
    pub message: InitMessage,
}

pub type DraftRequest = JobRequest;

pub type JobApplyRequest = JobRequest;

#[derive(Debug, Clone)]
pub struct InitMessage {
    pub order: InitOrder,
}

#[derive(Debug, Clone)]
pub struct InitOrder {
    pub provider: Provider,
    pub items: Vec<InitOrderItem>,
    pub fulfillments: Option<Vec<Fulfillment>>,
}

#[derive(Debug, Clone)]
pub struct Provider {
    pub id: String,
}

#[derive(Debug, Clone)]
pub struct InitOrderItem {
    pub id: String,
    pub fulfillment_ids: Option<Vec<String>>,
}

/// The query of a listing by user.
#[derive(Debug, Clone)]
pub struct JobApplications {
    pub user_id: String,
}

pub type JobApplicationsQuery = JobApplications;

pub type DraftApplicationsQuery = JobApplications;

#[derive(Debug, Clone)]
pub struct SelectRequest {
    pub context: MinimalContext,
    pub message: SelectMessage,
}

#[derive(Debug, Clone)]
pub struct SelectMessage {
    pub order: SelectOrder,
}

#[derive(Debug, Clone)]
pub struct SelectOrder {
    pub provider: OrderProvider,
    pub items: Vec<OrderItem>,
}

#[derive(Debug, Clone)]
pub struct OrderProvider {
    pub id: String,
}

#[derive(Debug, Clone)]
pub struct OrderItem {
    pub id: String,
}

#[derive(Debug, Clone)]
pub struct StatusRequest {
    pub context: MinimalContext,
    pub message: StatusMessage,
}

#[derive(Debug, Clone)]
pub struct StatusMessage {
    pub order: StatusOrder,
}

#[derive(Debug, Clone)]
pub struct StatusOrder {
    pub id: String,
}

#[derive(Debug, Clone)]
pub struct HealthResponse {
    pub status: &'static str,
    pub timestamp: String,
}

/// A callback from the network.
#[derive(Debug)]
pub struct WebhookPayload {
    pub context: Context,
    pub message: Json,
}

/// The acknowledgement that every callback is answered with.
#[derive(Debug, Clone)]
pub struct AckResponse {
    pub message: AckStatus,
}

#[derive(Debug, Clone)]
pub struct AckStatus {
    pub ack: Ack,
}

#[derive(Debug, Clone)]
pub struct Ack {
    pub status: &'static str,
}

/// The kinds of profile events.
#[derive(Debug, Clone, Copy, PartialEq, Eq, Structural)]
pub enum EventType {
    ProfileUpdated,
    ProfileCreated,
}

/// An event as a client admits it.
#[derive(Debug)]
pub struct EventRequest {
    pub event_type: EventType,
    pub payload: Json,
}

/// An event on the stream.
#[derive(Debug)]
pub struct AppEvent {
    pub id: String,
    pub event_type: EventType,
    pub payload: Json,
    pub created_at: String,
}

/// The answer to a client that admitted an event.
#[derive(Debug, Clone)]
pub struct EventResponse {
    pub status: String,
    pub event_id: String,
    pub stream: String,
    pub created_at: String,
}

/// The acknowledgement: `{message: {ack: {status: "ACK"}}}`.
pub fn ack() -> (out: AckResponse)
    ensures
        out.message.ack.status@ == "ACK"@,
{
    AckResponse { message: AckStatus { ack: Ack { status: "ACK" } } }
}

/// The health report at the time `timestamp`.
pub fn health(timestamp: String) -> (out: HealthResponse)
    ensures
        out.status@ == "OK"@,
        out.timestamp == timestamp,
{
    HealthResponse { status: "OK", timestamp }
}

/// The name of an event kind on the wire.
pub open spec fn event_name(kind: EventType) -> Seq<char> {
    match kind {
        EventType::ProfileUpdated => "profile.updated"@,
        EventType::ProfileCreated => "profile.created"@,
    }
}

/// The event kind with the wire name `name`.
pub open spec fn event_kind(name: Seq<char>) -> Option<EventType> {
    if name == "profile.updated"@ {
        Some(EventType::ProfileUpdated)
    } else if name == "profile.created"@ {
        Some(EventType::ProfileCreated)
    } else {
        None
    }
}

impl EventType {
    /// The name of this event kind on the wire.
    pub fn name(&self) -> (out: &'static str)
        ensures
            out@ == event_name(*self),
    {
        match self {
            EventType::ProfileUpdated => "profile.updated",
            EventType::ProfileCreated => "profile.created",
        }
    }

    /// The event kind with the wire name `name`.
    pub fn from_name(name: &str) -> (out: Option<EventType>)
        ensures
            out == event_kind(name@),
    {
        let given = chars_of(name);
        if same_chars(&given, &chars_of("profile.updated")) {
            Some(EventType::ProfileUpdated)
        } else if same_chars(&given, &chars_of("profile.created")) {
            Some(EventType::ProfileCreated)
        } else {
            None
        }
    }
}

/// A wire name names the kind it is the name of.
pub proof fn lemma_event_name_round_trip(kind: EventType)
    ensures
        event_kind(event_name(kind)) == Some(kind),
{
    reveal_strlit("profile.updated");
    reveal_strlit("profile.created");
    assert("profile.updated"@.len() == 15);
    assert("profile.created"@.len() == 15);
    assert("profile.updated"@[8] == 'u');
    assert("profile.created"@[8] == 'c');
}

/// An object with one field.
pub open spec fn object1(k1: Seq<char>, v1: JsonValue) -> JsonValue {
    JsonValue::Object(Map::empty().insert(k1, v1))
}

/// The JSON array of the given texts.
pub open spec fn text_array(texts: Seq<String>) -> JsonValue {
    JsonValue::Array(Seq::new(texts.len(), |i: int| JsonValue::Str(texts[i]@)))
}

/// The JSON array of the given texts.
pub fn texts_to_json(texts: &Vec<String>) -> (out: Json)
    ensures
        out@ == text_array(texts@),
{
    let mut items: Vec<Json> = Vec::new();
    let mut i: usize = 0;
    while i < texts.len()
        invariant
            i <= texts.len(),
            items.len() == i,
            forall|k: int| 0 <= k < i ==> items@[k]@ == JsonValue::Str(texts@[k]@),
        decreases texts.len() - i,
    {
        items.push(Json::Str(texts[i].clone()));
        i += 1;
    }
    let out = Json::Array(items);
    proof {
        lemma_array_view(items);
        assert(values_of(items@) =~= text_array(texts@)->Array_0);
    }
    out
}

impl InitOrderItem {
    /// The item on the wire: its identifier, and the fulfilments it
    /// refers to where it names any.
    pub open spec fn value(self) -> JsonValue {
        match self.fulfillment_ids {
            Some(ids) => JsonValue::Object(
                Map::empty().insert("id"@, JsonValue::Str(self.id@)).insert(
                    "fulfillment_ids"@,
                    text_array(ids@),
                ),
            ),
            None => object1("id"@, JsonValue::Str(self.id@)),
        }
    }

    /// The item on the wire.
    pub fn to_json(&self) -> (out: Json)
        ensures
            out@ == self.value(),
    {
        let base = Json::empty_object().with_field("id", Json::Str(self.id.clone()));
        match &self.fulfillment_ids {
            Some(ids) => base.with_field("fulfillment_ids", texts_to_json(ids)),
            None => base,
        }
    }
}

impl Fulfillment {
    /// The fulfilment on the wire: its identifier and its customer, each
    /// where it has one.
    pub open spec fn value(self) -> JsonValue {
        let with_id = match self.id {
            Some(id) => Map::empty().insert("id"@, JsonValue::Str(id@)),
            None => Map::empty(),
        };
        match self.customer {
            Some(c) => JsonValue::Object(
                with_id.insert(
                    "customer"@,
                    object1("person"@, object1("id"@, JsonValue::Str(c.person.id@))),
                ),
            ),
            None => JsonValue::Object(with_id),
        }
    }

    /// The fulfilment on the wire.
    pub fn to_json(&self) -> (out: Json)
        ensures
            out@ == self.value(),
    {
        let base = match &self.id {
            Some(id) => Json::empty_object().with_field("id", Json::Str(id.clone())),
            None => Json::empty_object(),
        };
        match &self.customer {
            Some(c) => {
                let person = Json::empty_object().with_field("id", Json::Str(c.person.id.clone()));
                let customer = Json::empty_object().with_field("person", person);
                base.with_field("customer", customer)
            },
            None => base,
        }
    }
}

impl InitOrder {
    /// The items of the order on the wire.
    pub open spec fn item_values(self) -> Seq<JsonValue> {
        Seq::new(self.items@.len(), |i: int| self.items@[i].value())
    }

    /// The order on the wire: provider, items, and fulfilments where it
    /// has any.
    pub open spec fn value(self) -> JsonValue {
        let base = Map::empty().insert(
            "provider"@,
            object1("id"@, JsonValue::Str(self.provider.id@)),
        ).insert("items"@, JsonValue::Array(self.item_values()));
        match self.fulfillments {
            Some(list) => JsonValue::Object(
                base.insert(
                    "fulfillments"@,
                    JsonValue::Array(Seq::new(list@.len(), |i: int| list@[i].value())),
                ),
            ),
            None => JsonValue::Object(base),
        }
    }

    /// The order on the wire.
    pub fn to_json(&self) -> (out: Json)
        ensures
            out@ == self.value(),
    {
        let provider = Json::empty_object().with_field("id", Json::Str(self.provider.id.clone()));
        let mut items: Vec<Json> = Vec::new();
        let mut i: usize = 0;
        while i < self.items.len()
            invariant
                i <= self.items.len(),
                items.len() == i,
                forall|k: int| 0 <= k < i ==> items@[k]@ == self.items@[k].value(),
            decreases self.items.len() - i,
        {
            items.push(self.items[i].to_json());
            i += 1;
        }
        let listed = Json::Array(items);
        proof {
            lemma_array_view(items);
            assert(values_of(items@) =~= self.item_values());
        }
        let base = Json::empty_object().with_field("provider", provider).with_field(
            "items",
            listed,
        );
        match &self.fulfillments {
            Some(list) => {
                let mut converted: Vec<Json> = Vec::new();
                let mut j: usize = 0;
                while j < list.len()
                    invariant
                        j <= list.len(),
                        converted.len() == j,
                        forall|k: int| 0 <= k < j ==> converted@[k]@ == list@[k].value(),
                    decreases list.len() - j,
                {
                    converted.push(list[j].to_json());
                    j += 1;
                }
                let all = Json::Array(converted);
                proof {
                    lemma_array_view(converted);
                    assert(values_of(converted@) =~= Seq::new(
                        list@.len(),
                        |i: int| list@[i].value(),
                    ));
                }
                base.with_field("fulfillments", all)
            },
            None => base,
        }
    }
}

impl InitMessage {
    /// The message on the wire: `{order: ..}`.
    pub open spec fn value(self) -> JsonValue {
        object1("order"@, self.order.value())
    }

    /// The message on the wire.
    pub fn to_json(&self) -> (out: Json)
        ensures
            out@ == self.value(),
    {
        Json::empty_object().with_field("order", self.order.to_json())
    }
}

impl SelectOrder {
    /// The items of the order on the wire.
    pub open spec fn item_values(self) -> Seq<JsonValue> {
        Seq::new(self.items@.len(), |i: int| object1("id"@, JsonValue::Str(self.items@[i].id@)))
    }

    /// The order on the wire: provider and items, each by identifier.
    pub open spec fn value(self) -> JsonValue {
        JsonValue::Object(
            Map::empty().insert(
                "provider"@,
                object1("id"@, JsonValue::Str(self.provider.id@)),
            ).insert("items"@, JsonValue::Array(self.item_values())),
        )
    }

    /// The order on the wire.
    pub fn to_json(&self) -> (out: Json)
        ensures
            out@ == self.value(),
    {
        let provider = Json::empty_object().with_field("id", Json::Str(self.provider.id.clone()));
        let mut items: Vec<Json> = Vec::new();
        let mut i: usize = 0;
        while i < self.items.len()
            invariant
                i <= self.items.len(),
                items.len() == i,
                forall|k: int|
                    0 <= k < i ==> items@[k]@ == object1(
                        "id"@,
                        JsonValue::Str(self.items@[k].id@),
                    ),
            decreases self.items.len() - i,
        {
            items.push(Json::empty_object().with_field("id", Json::Str(self.items[i].id.clone())));
            i += 1;
        }
        let listed = Json::Array(items);
        proof {
            lemma_array_view(items);
            assert(values_of(items@) =~= self.item_values());
        }
        Json::empty_object().with_field("provider", provider).with_field("items", listed)
    }
}

impl SelectMessage {
    /// The message on the wire: `{order: ..}`.
    pub open spec fn value(self) -> JsonValue {
        object1("order"@, self.order.value())
    }

    /// The message on the wire.
    pub fn to_json(&self) -> (out: Json)
        ensures
            out@ == self.value(),
    {
        Json::empty_object().with_field("order", self.order.to_json())
    }
}

impl StatusMessage {
    /// The message on the wire: `{order: {id: ..}}`.
    pub open spec fn value(self) -> JsonValue {
        object1("order"@, object1("id"@, JsonValue::Str(self.order.id@)))
    }

    /// The message on the wire.
    pub fn to_json(&self) -> (out: Json)
        ensures
            out@ == self.value(),
    {
        let order = Json::empty_object().with_field("id", Json::Str(self.order.id.clone()));
        Json::empty_object().with_field("order", order)
    }
}

impl JobRequest {
    /// The user who applies: the person of the first fulfilment's
    /// customer, or the empty text where the request names none.
    pub open spec fn applicant(self) -> Seq<char> {
        match self.message.order.fulfillments {
            Some(list) => if list@.len() > 0 {
                match list@[0].customer {
                    Some(c) => c.person.id@,
                    None => Seq::empty(),
                }
            } else {
                Seq::empty()
            },
            None => Seq::empty(),
        }
    }

    /// The job applied for: the first item, or the empty text where the
    /// request names none.
    pub open spec fn job(self) -> Seq<char> {
        if self.message.order.items@.len() > 0 {
            self.message.order.items@[0].id@
        } else {
            Seq::empty()
        }
    }

    /// The user who applies.
    pub fn user_id(&self) -> (out: String)
        ensures
            out@ == self.applicant(),
    {
        match &self.message.order.fulfillments {
            Some(list) => if list.len() > 0 {
                match &list[0].customer {
                    Some(c) => c.person.id.clone(),
                    None => String::new(),
                }
            } else {
                String::new()
            },
            None => String::new(),
        }
    }

    /// The job applied for.
    pub fn job_id(&self) -> (out: String)
        ensures
            out@ == self.job(),
    {
        if self.message.order.items.len() > 0 {
            self.message.order.items[0].id.clone()
        } else {
            String::new()
        }
    }
}

/// A map with the text field `key` set where a text is given.
pub open spec fn with_text(
    fields: Map<Seq<char>, JsonValue>,
    key: Seq<char>,
    text: Option<String>,
) -> Map<Seq<char>, JsonValue> {
    match text {
        Some(t) => fields.insert(key, JsonValue::Str(t@)),
        None => fields,
    }
}

impl Context {
    /// The envelope on the wire: every field as a string, the provider's
    /// identity where the envelope has it.
    pub open spec fn value(self) -> JsonValue {
        JsonValue::Object(
            with_text(
                with_text(
                    Map::empty().insert(
                        "transaction_id"@,
                        JsonValue::Str(self.transaction_id@),
                    ).insert("message_id"@, JsonValue::Str(self.message_id@)).insert(
                        "action"@,
                        JsonValue::Str(self.action@),
                    ).insert("bap_id"@, JsonValue::Str(self.bap_id@)).insert(
                        "bap_uri"@,
                        JsonValue::Str(self.bap_uri@),
                    ).insert("domain"@, JsonValue::Str(self.domain@)).insert(
                        "version"@,
                        JsonValue::Str(self.version@),
                    ).insert("ttl"@, JsonValue::Str(self.ttl@)).insert(
                        "timestamp"@,
                        JsonValue::Str(self.timestamp@),
                    ),
                    "bpp_id"@,
                    self.bpp_id,
                ),
                "bpp_uri"@,
                self.bpp_uri,
            ),
        )
    }

    /// The envelope on the wire.
    pub fn to_json(&self) -> (out: Json)
        ensures
            out@ == self.value(),
    {
        let base = Json::empty_object().with_field(
            "transaction_id",
            Json::Str(self.transaction_id.clone()),
        ).with_field("message_id", Json::Str(self.message_id.clone())).with_field(
            "action",
            Json::Str(self.action.clone()),
        ).with_field("bap_id", Json::Str(self.bap_id.clone())).with_field(
            "bap_uri",
            Json::Str(self.bap_uri.clone()),
        ).with_field("domain", Json::Str(self.domain.clone())).with_field(
            "version",
            Json::Str(self.version.clone()),
        ).with_field("ttl", Json::Str(self.ttl.clone())).with_field(
            "timestamp",
            Json::Str(self.timestamp.clone()),
        );
        let with_id = match &self.bpp_id {
            Some(id) => base.with_field("bpp_id", Json::Str(id.clone())),
            None => base,
        };
        match &self.bpp_uri {
            Some(uri) => with_id.with_field("bpp_uri", Json::Str(uri.clone())),
            None => with_id,
        }
    }
}

impl WebhookPayload {
    /// The callback as a document: `{context: .., message: ..}`.
    pub open spec fn value(self) -> JsonValue {
        JsonValue::Object(
            Map::empty().insert("context"@, self.context.value()).insert(
                "message"@,
                self.message@,
            ),
        )
    }

    /// The callback as a document.
    pub fn to_json(&self) -> (out: Json)
        ensures
            out@ == self.value(),
    {
        Json::empty_object().with_field("context", self.context.to_json()).with_field(
            "message",
            self.message.duplicate(),
        )
    }
}

} // verus!
