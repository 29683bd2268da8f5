//! Notifications of good matches: whom to notify, in which batches, and
//! how a request to the notifier is signed.

use crate::batching::{batch_views, chunks_of, split_batches};
use crate::hash::{hex_of, hex_text, hmac_sha256, hmac_tag};
use crate::json::{Json, JsonValue};
use crate::matches::effective_batch;
use crate::seqs::lemma_filter_push;
use crate::text::{decimal_string, decimal_text};
use vstd::prelude::*;
use vstd::string::StringExecFns;

verus! {

/// `rand::random` for sixteen bytes: a random nonce of that length.
#[verifier::external_body]
fn random_nonce() -> (out: Vec<u8>)
    ensures
        out@.len() == 16,
{
    rand::random::<[u8; 16]>().to_vec()
}

/// The decimal numeral of a whole number, with a minus sign where it is
/// negative.
pub open spec fn signed_text(n: int) -> Seq<char> {
    if n < 0 {
        seq!['-'] + decimal_text((-n) as nat)
    } else {
        decimal_text(n as nat)
    }
}

/// The decimal numeral of `n`.
pub fn signed_string(n: i64) -> (out: String)
    ensures
        out@ == signed_text(n as int),
{
    if n < 0 {
        let magnitude: u64 = if n == i64::MIN {
            9223372036854775808u64
        } else {
            (-n) as u64
        };
        let mut out = String::new();
        out.append("-");
        out.append(decimal_string(magnitude).as_str());
        proof {
            reveal_strlit("-");
            assert("-"@ =~= seq!['-']);
        }
        assert(out@ =~= signed_text(n as int));
        out
    } else {
        decimal_string(n as u64)
    }
}

/// The text that is signed: method, path, time and nonce, one to a line.
pub open spec fn base_text(
    method: Seq<char>,
    path: Seq<char>,
    timestamp: Seq<char>,
    nonce: Seq<char>,
) -> Seq<char> {
    method + "\n"@ + path + "\n"@ + timestamp + "\n"@ + nonce
}

/// The text that is signed.
pub fn base_string(method: &str, path: &str, timestamp: &str, nonce: &str) -> (out: String)
    ensures
        out@ == base_text(method@, path@, timestamp@, nonce@),
{
    let mut out = String::new();
    out.append(method);
    out.append("\n");
    out.append(path);
    out.append("\n");
    out.append(timestamp);
    out.append("\n");
    out.append(nonce);
    assert(out@ =~= base_text(method@, path@, timestamp@, nonce@));
    out
}

/// The signature header for a tag: `v1=` and the tag in hexadecimal.
pub open spec fn header_text(tag: Seq<u8>) -> Seq<char> {
    "v1="@ + hex_text(tag)
}

/// The signature header for the outcome of the tag computation: none
/// where there is no tag.
pub fn signature_header(tag: Option<Vec<u8>>) -> (out: Option<String>)
    ensures
        match tag {
            Some(t) => out is Some && out->0@ == header_text(t@),
            None => out is None,
        },
{
    match tag {
        Some(t) => {
            let mut out = String::new();
            out.append("v1=");
            out.append(hex_of(&t).as_str());
            assert(out@ =~= header_text(t@));
            Some(out)
        },
        None => None,
    }
}

/// The signature of a request: the header for the HMAC-SHA256 tag of the
/// base text under the secret. Every request gets one.
pub fn sign_request(secret: &str, method: &str, path: &str, timestamp: &str, nonce: &str) -> (out:
    Option<String>)
    ensures
        out is Some,
        out->0@ == header_text(
            hmac_tag(
                vstd::utf8::encode_utf8(secret@),
                vstd::utf8::encode_utf8(base_text(method@, path@, timestamp@, nonce@)),
            ),
        ),
{
    let base = base_string(method, path, timestamp, nonce);
    signature_header(hmac_sha256(secret.as_bytes(), base.as_str().as_bytes()))
}

/// A fresh nonce: sixteen random bytes in hexadecimal.
pub fn new_nonce() -> (out: String)
    ensures
        exists|bytes: Seq<u8>| bytes.len() == 16 && out@ == #[trigger] hex_text(bytes),
        out@.len() == 32,
{
    let bytes = random_nonce();
    hex_of(&bytes)
}

/// A header of a request: name and value.
pub struct Header {
    pub name: String,
    pub value: String,
}

/// The headers of a signed request to the notifier, as pairs of name and
/// value.
pub open spec fn signed_headers(
    key_id: Seq<char>,
    timestamp: Seq<char>,
    nonce: Seq<char>,
    signature: Seq<char>,
) -> Seq<(Seq<char>, Seq<char>)> {
    seq![
        ("X-NS-Key"@, key_id),
        ("X-NS-Timestamp"@, timestamp),
        ("X-NS-Nonce"@, nonce),
        ("X-NS-Signature"@, signature),
        ("content-type"@, "application/json"@),
    ]
}

/// The headers in `headers`, as pairs of name and value.
pub open spec fn headers_of(headers: Seq<Header>) -> Seq<(Seq<char>, Seq<char>)> {
    Seq::new(headers.len(), |i: int| (headers[i].name@, headers[i].value@))
}

/// The headers of a signed request to the notifier.
pub fn build_headers(key_id: &str, timestamp: &str, nonce: &str, signature: &str) -> (out: Vec<
    Header,
>)
    ensures
        headers_of(out@) == signed_headers(key_id@, timestamp@, nonce@, signature@),
{
    let mut out: Vec<Header> = Vec::new();
    out.push(Header { name: "X-NS-Key".to_owned(), value: key_id.to_owned() });
    out.push(Header { name: "X-NS-Timestamp".to_owned(), value: timestamp.to_owned() });
    out.push(Header { name: "X-NS-Nonce".to_owned(), value: nonce.to_owned() });
    out.push(Header { name: "X-NS-Signature".to_owned(), value: signature.to_owned() });
    out.push(Header { name: "content-type".to_owned(), value: "application/json".to_owned() });
    assert(headers_of(out@) =~= signed_headers(key_id@, timestamp@, nonce@, signature@));
    out
}

/// The address of the notifier: the base address without a slash at its
/// end, and `/notify`.
pub open spec fn notify_address(base_url: Seq<char>) -> Seq<char> {
    without_trailing_slashes(base_url) + "/notify"@
}

/// A text without the slashes at its end.
pub open spec fn without_trailing_slashes(s: Seq<char>) -> Seq<char>
    decreases s.len(),
{
    if s.len() > 0 && s.last() == '/' {
        without_trailing_slashes(s.drop_last())
    } else {
        s
    }
}

/// The address of the notifier at `base_url`.
pub fn notify_url(base_url: &str) -> (out: String)
    ensures
        out@ == notify_address(base_url@),
{
    let chars = crate::text::chars_of(base_url);
    let mut end: usize = chars.len();
    assert(chars@.subrange(0, end as int) =~= chars@);
    while end > 0 && chars[end - 1] == '/'
        invariant
            end <= chars.len(),
            without_trailing_slashes(chars@) == without_trailing_slashes(
                chars@.subrange(0, end as int),
            ),
        decreases end,
    {
        assert(chars@.subrange(0, end as int).drop_last() =~= chars@.subrange(0, end - 1));
        end -= 1;
    }
    let mut kept = crate::text::sub_chars(&chars, 0, end);
    crate::text::push_text(&mut kept, "/notify");
    crate::text::string_of(&kept)
}

/// The message to the notifier: a WhatsApp template for the number
/// `phone`, filled with the name of the user, the link to the listing,
/// the role and the provider of the job.
pub open spec fn notification_value(
    phone: Seq<char>,
    name: Seq<char>,
    role: Seq<char>,
    provider_name: Seq<char>,
    content_sid: Seq<char>,
) -> JsonValue {
    JsonValue::Object(
        Map::empty().insert("channel"@, JsonValue::Str("whatsapp"@)).insert(
            "template_id"@,
            JsonValue::Str("other"@),
        ).insert("to"@, JsonValue::Str(phone)).insert(
            "priority"@,
            JsonValue::Str("realtime"@),
        ).insert(
            "variables"@,
            JsonValue::Object(
                Map::empty().insert("contentSid"@, JsonValue::Str(content_sid)).insert(
                    "contentVariables"@,
                    JsonValue::Object(
                        Map::empty().insert("1"@, JsonValue::Str(name)).insert(
                            "2"@,
                            JsonValue::Str(
                                "https://getjob.onest.network/0/seeker?tab=discover"@,
                            ),
                        ).insert("3"@, JsonValue::Str(role)).insert(
                            "4"@,
                            JsonValue::Str(provider_name),
                        ),
                    ),
                ),
            ),
        ),
    )
}

/// The message to the notifier.
pub fn notification_payload(
    phone: &str,
    name: &str,
    role: &str,
    provider_name: &str,
    content_sid: &str,
) -> (out: Json)
    ensures
        out@ == notification_value(phone@, name@, role@, provider_name@, content_sid@),
{
    let filled = Json::empty_object().with_field("1", Json::text(name)).with_field(
        "2",
        Json::text("https://getjob.onest.network/0/seeker?tab=discover"),
    ).with_field("3", Json::text(role)).with_field("4", Json::text(provider_name));
    let variables = Json::empty_object().with_field(
        "contentSid",
        Json::text(content_sid),
    ).with_field("contentVariables", filled);
    Json::empty_object().with_field("channel", Json::text("whatsapp")).with_field(
        "template_id",
        Json::text("other"),
    ).with_field("to", Json::text(phone)).with_field(
        "priority",
        Json::text("realtime"),
    ).with_field("variables", variables)
}

/// A good match, with what is known of the user and of the job.
pub struct HighMatch {
    pub match_score: i16,
    pub phone: Option<String>,
    pub name: Option<String>,
    pub role: Option<String>,
    pub job_provider_name: Option<String>,
}

/// A notification to send.
pub struct Notification {
    pub phone: String,
    pub name: String,
    pub role: String,
    pub provider_name: String,
}

/// A notification, as a mathematical value.
pub struct NotificationView {
    pub phone: Seq<char>,
    pub name: Seq<char>,
    pub role: Seq<char>,
    pub provider_name: Seq<char>,
}

impl View for Notification {
    type V = NotificationView;

    open spec fn view(&self) -> NotificationView {
        NotificationView {
            phone: self.phone@,
            name: self.name@,
            role: self.role@,
            provider_name: self.provider_name@,
        }
    }
}

/// The notifications in `list`, in order.
pub open spec fn notifications_of(list: Seq<Notification>) -> Seq<NotificationView> {
    Seq::new(list.len(), |i: int| list[i]@)
}

/// A text, or a word in its place.
pub open spec fn text_or(text: Option<String>, fallback: Seq<char>) -> Seq<char> {
    match text {
        Some(t) => t@,
        None => fallback,
    }
}

/// The notification for a match: to its phone number, with `User`, `Job`
/// and `Company` where the name, the role or the provider is not known.
/// None for a match below the threshold, or without a phone number.
pub open spec fn notification_for(m: HighMatch, min_score: i16) -> Option<NotificationView> {
    match m.phone {
        Some(phone) => if m.match_score >= min_score {
            Some(
                NotificationView {
                    phone: phone@,
                    name: text_or(m.name, "User"@),
                    role: text_or(m.role, "Job"@),
                    provider_name: text_or(m.job_provider_name, "Company"@),
                },
            )
        } else {
            None
        },
        None => None,
    }
}

/// The notifications for the first `n` of `rows`, in order.
pub open spec fn notifications_among(rows: Seq<HighMatch>, min_score: i16, n: int) -> Seq<
    NotificationView,
>
    decreases n,
{
    if n <= 0 || n > rows.len() {
        Seq::empty()
    } else {
        let before = notifications_among(rows, min_score, n - 1);
        match notification_for(rows[n - 1], min_score) {
            Some(v) => before.push(v),
            None => before,
        }
    }
}

/// The text of `text`, or `fallback` in its place.
fn owned_or(text: &Option<String>, fallback: &str) -> (out: String)
    ensures
        out@ == text_or(*text, fallback@),
{
    match text {
        Some(t) => t.clone(),
        None => fallback.to_owned(),
    }
}

/// The notifications to send for `rows`: one for each match at or above
/// `min_score` that has a phone number, in order.
pub fn plan_notifications(rows: &Vec<HighMatch>, min_score: i16) -> (out: Vec<Notification>)
    ensures
        notifications_of(out@) == notifications_among(rows@, min_score, rows@.len() as int),
{
    let mut out: Vec<Notification> = Vec::new();
    let mut i: usize = 0;
    assert(notifications_of(out@) =~= notifications_among(rows@, min_score, 0));
    while i < rows.len()
        invariant
            i <= rows.len(),
            notifications_of(out@) == notifications_among(rows@, min_score, i as int),
        decreases rows.len() - i,
    {
        let ghost before = notifications_of(out@);
        let row = &rows[i];
        match &row.phone {
            Some(phone) => {
                if row.match_score >= min_score {
                    out.push(
                        Notification {
                            phone: phone.clone(),
                            name: owned_or(&row.name, "User"),
                            role: owned_or(&row.role, "Job"),
                            provider_name: owned_or(&row.job_provider_name, "Company"),
                        },
                    );
                    assert(notifications_of(out@) =~= before.push(
                        notification_for(*row, min_score)->0,
                    ));
                }
            },
            None => {},
        }
        i += 1;
    }
    out
}

/// The batches in which the notifications go out: of `batch` each, and
/// of one each where no size is configured.
pub fn notification_batches(list: Vec<Notification>, batch: usize) -> (out: Vec<Vec<Notification>>)
    ensures
        batch_views(out@) == chunks_of(
            list@,
            if batch == 0 {
                1
            } else {
                batch as nat
            },
        ),
{
    split_batches(list, effective_batch(batch))
}

/// The seconds to pause after the batch at `index` of `total` batches:
/// five between batches, none after the last.
pub fn pause_after_batch(index: usize, total: usize) -> (out: Option<u64>)
    ensures
        out == if index + 1 < total {
            Some(5u64)
        } else {
            None
        },
{
    if index < total && index + 1 < total {
        Some(5)
    } else {
        None
    }
}

} // verus!
