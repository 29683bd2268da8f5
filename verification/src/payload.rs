//! Outbound network messages: the envelope and the payload around a
//! message.

use crate::config::AppConfig;
use crate::json::{Json, JsonValue};
use vstd::prelude::*;

verus! {

/// `Utc::now` and `DateTime::to_rfc3339` of the crate `chrono`: the current
/// time as a text. Nothing is promised of it.
#[verifier::external_body]
fn current_timestamp() -> (out: String) {
    chrono::Utc::now().to_rfc3339()
}

/// The fields of the envelope that every outbound message has.
pub open spec fn context_base(
    config: AppConfig,
    txn_id: Seq<char>,
    message_id: Seq<char>,
    action: Seq<char>,
    now: Seq<char>,
) -> Map<Seq<char>, JsonValue> {
    Map::empty().insert("action"@, JsonValue::Str(action)).insert(
        "bap_id"@,
        JsonValue::Str(config.bap.id@),
    ).insert("bap_uri"@, JsonValue::Str(config.bap.bap_uri@)).insert(
        "domain"@,
        JsonValue::Str(config.bap.domain@),
    ).insert("message_id"@, JsonValue::Str(message_id)).insert(
        "transaction_id"@,
        JsonValue::Str(txn_id),
    ).insert("timestamp"@, JsonValue::Str(now)).insert("ttl"@, JsonValue::Str("PT30S"@)).insert(
        "version"@,
        JsonValue::Str(config.bap.version@),
    )
}

/// A map with the text field `key` set where a text is given.
pub open spec fn with_optional(
    fields: Map<Seq<char>, JsonValue>,
    key: Seq<char>,
    text: Option<Seq<char>>,
) -> Map<Seq<char>, JsonValue> {
    match text {
        Some(t) => fields.insert(key, JsonValue::Str(t)),
        None => fields,
    }
}

/// The envelope of an outbound message: action, the participant's own
/// identity, message and transaction identifiers, the time `now`, a
/// time to live of thirty seconds, and the addressed provider where one
/// is addressed.
pub open spec fn context_value(
    config: AppConfig,
    txn_id: Seq<char>,
    message_id: Seq<char>,
    action: Seq<char>,
    bpp_id: Option<Seq<char>>,
    bpp_uri: Option<Seq<char>>,
    now: Seq<char>,
) -> JsonValue {
    JsonValue::Object(
        with_optional(
            with_optional(
                context_base(config, txn_id, message_id, action, now),
                "bpp_id"@,
                bpp_id,
            ),
            "bpp_uri"@,
            bpp_uri,
        ),
    )
}

/// The payload of an outbound message: `{context: .., message: ..}`.
pub open spec fn payload_value(context: JsonValue, message: JsonValue) -> JsonValue {
    JsonValue::Object(Map::empty().insert("context"@, context).insert("message"@, message))
}

/// The text of an optional text.
pub open spec fn text_view(text: Option<&str>) -> Option<Seq<char>> {
    match text {
        Some(t) => Some(t@),
        None => None,
    }
}

/// The envelope of an outbound message sent at the time `now`.
pub fn generate_context_at(
    config: &AppConfig,
    txn_id: &str,
    message_id: &str,
    action: &str,
    bpp_id: Option<&str>,
    bpp_uri: Option<&str>,
    now: &str,
) -> (out: Json)
    ensures
        out@ == context_value(
            *config,
            txn_id@,
            message_id@,
            action@,
            text_view(bpp_id),
            text_view(bpp_uri),
            now@,
        ),
{
    let base = Json::empty_object().with_field("action", Json::text(action)).with_field(
        "bap_id",
        Json::Str(config.bap.id.clone()),
    ).with_field("bap_uri", Json::Str(config.bap.bap_uri.clone())).with_field(
        "domain",
        Json::Str(config.bap.domain.clone()),
    ).with_field("message_id", Json::text(message_id)).with_field(
        "transaction_id",
        Json::text(txn_id),
    ).with_field("timestamp", Json::text(now)).with_field("ttl", Json::text("PT30S")).with_field(
        "version",
        Json::Str(config.bap.version.clone()),
    );
    let with_id = match bpp_id {
        Some(id) => base.with_field("bpp_id", Json::text(id)),
        None => base,
    };
    match bpp_uri {
        Some(uri) => with_id.with_field("bpp_uri", Json::text(uri)),
        None => with_id,
    }
}

/// The payload of an outbound message sent at the time `now`, around a
/// copy of `message`.
pub fn build_beckn_payload_at(
    config: &AppConfig,
    txn_id: &str,
    message_id: &str,
    message: &Json,
    action: &str,
    bpp_id: Option<&str>,
    bpp_uri: Option<&str>,
    now: &str,
) -> (out: Json)
    ensures
        out@ == payload_value(
            context_value(
                *config,
                txn_id@,
                message_id@,
                action@,
                text_view(bpp_id),
                text_view(bpp_uri),
                now@,
            ),
            message@,
        ),
{
    let context = generate_context_at(config, txn_id, message_id, action, bpp_id, bpp_uri, now);
    Json::empty_object().with_field("context", context).with_field("message", message.duplicate())
}

/// The payload of an outbound message sent now, around a copy of
/// `message`: the payload for some time stamp.
pub fn build_beckn_payload(
    config: &AppConfig,
    txn_id: &str,
    message_id: &str,
    message: &Json,
    action: &str,
    bpp_id: Option<&str>,
    bpp_uri: Option<&str>,
) -> (out: Json)
    ensures
        exists|now: Seq<char>|
            out@ == #[trigger] payload_value(
                context_value(
                    *config,
                    txn_id@,
                    message_id@,
                    action@,
                    text_view(bpp_id),
                    text_view(bpp_uri),
                    now,
                ),
                message@,
            ),
{
    let now = current_timestamp();
    build_beckn_payload_at(config, txn_id, message_id, message, action, bpp_id, bpp_uri, now.as_str())
}

} // verus!
