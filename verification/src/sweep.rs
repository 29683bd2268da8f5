//! The paginated sweep over open jobs: merging what the providers send,
//! and deciding whether to ask for another page.

use crate::config::{AppConfig, MetaDataMatch};
use crate::embedding::{embedding_text, has_content, job_text_for_embedding, needs_embedding};
use crate::json::{values_of, Json, JsonValue};
use crate::models::object1;
use crate::payload::{build_beckn_payload_at, context_value, payload_value};
use crate::seqs::{first_index, lemma_first_index, lemma_first_index_is};
use crate::text::{chars_of, parse_decimal, same_text, signed_decimal};
use vstd::prelude::*;

verus! {

/// The text of a string value.
pub open spec fn text_of_value(value: Option<JsonValue>) -> Option<Seq<char>> {
    match value {
        Some(JsonValue::Str(s)) => Some(s),
        _ => None,
    }
}

/// The identifier of an item: its `id`, where that is a string.
pub open spec fn item_id(item: JsonValue) -> Option<Seq<char>> {
    text_of_value(item.field("id"@))
}

/// The name that identifies a provider: its `jobProviderName`, or else
/// its `descriptor.name`, where one of them is a string.
pub open spec fn provider_name(provider: JsonValue) -> Option<Seq<char>> {
    match text_of_value(provider.field("jobProviderName"@)) {
        Some(n) => Some(n),
        None => text_of_value(provider.pointer("/descriptor/name"@)),
    }
}

/// The items of a provider: its `items`, where that is an array.
pub open spec fn provider_items(provider: JsonValue) -> Seq<JsonValue> {
    match provider.field("items"@) {
        Some(JsonValue::Array(items)) => items,
        _ => Seq::empty(),
    }
}

/// The test that an item has the identifier `id`.
pub open spec fn has_id(id: Seq<char>) -> spec_fn(JsonValue) -> bool {
    |item: JsonValue| item_id(item) == Some(id)
}

/// The test that a provider has the name `name`.
pub open spec fn is_named(name: Seq<char>) -> spec_fn(JsonValue) -> bool {
    |provider: JsonValue| provider_name(provider) == Some(name)
}

/// A stored item with its embedding brought up to date from the same
/// item as it came in: replaced where the incoming item has one.
pub open spec fn refreshed(stored: JsonValue, incoming: JsonValue) -> JsonValue {
    match incoming.field("embedding"@) {
        Some(e) => stored.with_field("embedding"@, e),
        None => stored,
    }
}

/// The stored items with one incoming item merged in: where an item with
/// its identifier is stored, that item's embedding is refreshed;
/// otherwise the incoming item is appended.
pub open spec fn merge_item(items: Seq<JsonValue>, incoming: JsonValue) -> Seq<JsonValue> {
    match item_id(incoming) {
        Some(id) => {
            let i = first_index(items, has_id(id));
            if 0 <= i < items.len() {
                items.update(i, refreshed(items[i], incoming))
            } else {
                items.push(incoming)
            }
        },
        None => items.push(incoming),
    }
}

/// The stored items with the incoming items merged in, one after the
/// other.
pub open spec fn merge_items(items: Seq<JsonValue>, incoming: Seq<JsonValue>) -> Seq<JsonValue>
    decreases incoming.len(),
{
    if incoming.len() == 0 {
        items
    } else {
        merge_item(merge_items(items, incoming.drop_last()), incoming.last())
    }
}

/// The stored providers with one incoming provider merged in: where a
/// provider with its name is stored, the incoming items are merged into
/// that provider's items; otherwise the incoming provider is appended
/// whole.
pub open spec fn merge_provider(providers: Seq<JsonValue>, incoming: JsonValue) -> Seq<JsonValue> {
    match provider_name(incoming) {
        Some(name) => {
            let i = first_index(providers, is_named(name));
            if 0 <= i < providers.len() {
                providers.update(
                    i,
                    providers[i].with_field(
                        "items"@,
                        JsonValue::Array(
                            merge_items(provider_items(providers[i]), provider_items(incoming)),
                        ),
                    ),
                )
            } else {
                providers.push(incoming)
            }
        },
        None => providers.push(incoming),
    }
}

/// The stored providers with the incoming providers merged in, one after
/// the other.
pub open spec fn merge_providers(providers: Seq<JsonValue>, incoming: Seq<JsonValue>) -> Seq<
    JsonValue,
>
    decreases incoming.len(),
{
    if incoming.len() == 0 {
        providers
    } else {
        merge_provider(merge_providers(providers, incoming.drop_last()), incoming.last())
    }
}

/// Whether no two items share an identifier.
pub open spec fn ids_unique(items: Seq<JsonValue>) -> bool {
    forall|i: int, j: int|
        0 <= i < j < items.len() && item_id(#[trigger] items[i]) is Some ==> item_id(items[i])
            != item_id(#[trigger] items[j])
}

/// Whether one of the items has the identifier `id`.
pub open spec fn holds_id(items: Seq<JsonValue>, id: Option<Seq<char>>) -> bool {
    exists|k: int| 0 <= k < items.len() && item_id(#[trigger] items[k]) == id
}

/// Refreshing the embedding of an item leaves its identifier as it is.
pub proof fn lemma_refreshed_keeps_id(stored: JsonValue, incoming: JsonValue)
    ensures
        item_id(refreshed(stored, incoming)) == item_id(stored),
{
    reveal_strlit("id");
    reveal_strlit("embedding");
    assert("id"@.len() == 2);
    assert("embedding"@.len() == 9);
}

/// Merging one item in keeps the stored items in place with their
/// identifiers, adds at most one item, and keeps identifiers unique.
pub proof fn lemma_merge_item(items: Seq<JsonValue>, incoming: JsonValue)
    ensures
        items.len() <= merge_item(items, incoming).len() <= items.len() + 1,
        forall|k: int|
            0 <= k < items.len() ==> item_id(#[trigger] merge_item(items, incoming)[k]) == item_id(
                items[k],
            ),
        merge_item(items, incoming).len() == items.len() + 1 ==> merge_item(
            items,
            incoming,
        ).last() == incoming,
        ids_unique(items) ==> ids_unique(merge_item(items, incoming)),
        holds_id(merge_item(items, incoming), item_id(incoming)),
{
    let merged = merge_item(items, incoming);
    match item_id(incoming) {
        Some(id) => {
            let i = first_index(items, has_id(id));
            lemma_first_index(items, has_id(id));
            if 0 <= i < items.len() {
                lemma_refreshed_keeps_id(items[i], incoming);
                assert(item_id(merged[i]) == item_id(incoming));
            } else {
                assert(merged[items.len() as int] == incoming);
                if ids_unique(items) {
                    assert forall|a: int, b: int|
                        0 <= a < b < merged.len() && item_id(#[trigger] merged[a]) is Some implies item_id(
                        merged[a],
                    ) != item_id(#[trigger] merged[b]) by {
                        if b == items.len() {
                            assert(!has_id(id)(items[a]));
                        } else {
                            assert(merged[a] == items[a]);
                            assert(merged[b] == items[b]);
                        }
                    }
                }
            }
        },
        None => {
            assert(merged[items.len() as int] == incoming);
            if ids_unique(items) {
                assert forall|a: int, b: int|
                    0 <= a < b < merged.len() && item_id(#[trigger] merged[a]) is Some implies item_id(
                    merged[a],
                ) != item_id(#[trigger] merged[b]) by {
                    if b < items.len() {
                        assert(merged[a] == items[a]);
                        assert(merged[b] == items[b]);
                    }
                }
            }
        },
    }
}

/// Merging items in loses no stored item, keeps the stored identifiers in
/// place, holds every incoming identifier afterwards, and keeps
/// identifiers unique.
pub proof fn lemma_merge_items(items: Seq<JsonValue>, incoming: Seq<JsonValue>)
    ensures
        items.len() <= merge_items(items, incoming).len() <= items.len() + incoming.len(),
        forall|k: int|
            0 <= k < items.len() ==> item_id(#[trigger] merge_items(items, incoming)[k]) == item_id(
                items[k],
            ),
        ids_unique(items) ==> ids_unique(merge_items(items, incoming)),
        forall|j: int|
            0 <= j < incoming.len() ==> holds_id(
                merge_items(items, incoming),
                item_id(#[trigger] incoming[j]),
            ),
    decreases incoming.len(),
{
    if incoming.len() > 0 {
        let before = merge_items(items, incoming.drop_last());
        let merged = merge_items(items, incoming);
        lemma_merge_items(items, incoming.drop_last());
        lemma_merge_item(before, incoming.last());
        assert forall|k: int| 0 <= k < items.len() implies item_id(#[trigger] merged[k]) == item_id(
            items[k],
        ) by {
            assert(item_id(merge_item(before, incoming.last())[k]) == item_id(before[k]));
        }
        assert forall|j: int| 0 <= j < incoming.len() implies holds_id(
            merged,
            item_id(#[trigger] incoming[j]),
        ) by {
            if j < incoming.len() - 1 {
                assert(incoming.drop_last()[j] == incoming[j]);
                assert(holds_id(before, item_id(incoming.drop_last()[j])));
                let k = choose|k: int|
                    0 <= k < before.len() && item_id(#[trigger] before[k]) == item_id(incoming[j]);
                assert(item_id(merged[k]) == item_id(before[k]));
            }
        }
    }
}

/// The text of an optional string.
pub open spec fn str_view(text: Option<&str>) -> Option<Seq<char>> {
    match text {
        Some(t) => Some(t@),
        None => None,
    }
}

/// The value of an optional document.
pub open spec fn doc_view(doc: Option<&Json>) -> Option<JsonValue> {
    match doc {
        Some(d) => Some(d@),
        None => None,
    }
}

/// The text of `value`, where it is a string.
pub fn text_in(value: Option<&Json>) -> (out: Option<&str>)
    ensures
        str_view(out) == text_of_value(doc_view(value)),
{
    match value {
        Some(v) => v.as_str(),
        None => None,
    }
}

/// The identifier of `item`.
pub fn id_of(item: &Json) -> (out: Option<&str>)
    ensures
        str_view(out) == item_id(item@),
{
    text_in(item.get("id"))
}

/// The name that identifies `provider`.
pub fn provider_name_of(provider: &Json) -> (out: Option<&str>)
    ensures
        str_view(out) == provider_name(provider@),
{
    match text_in(provider.get("jobProviderName")) {
        Some(n) => Some(n),
        None => text_in(provider.pointer("/descriptor/name")),
    }
}

/// The index of the first of `items` with the identifier `id`, or their
/// number where none has it.
pub fn find_by_id(items: &Vec<Json>, id: &str) -> (out: usize)
    ensures
        out == first_index(values_of(items@), has_id(id@)),
        out <= items.len(),
{
    let mut i: usize = 0;
    while i < items.len()
        invariant
            i <= items.len(),
            forall|k: int| 0 <= k < i ==> !has_id(id@)(#[trigger] values_of(items@)[k]),
        decreases items.len() - i,
    {
        let found = match id_of(&items[i]) {
            Some(other) => same_text(other, id),
            None => false,
        };
        if found {
            proof {
                lemma_first_index_is(values_of(items@), has_id(id@), i as int);
            }
            return i;
        }
        i += 1;
    }
    proof {
        lemma_first_index_is(values_of(items@), has_id(id@), i as int);
    }
    i
}

/// The index of the first of `providers` with the name `name`, or their
/// number where none has it.
pub fn find_by_name(providers: &Vec<Json>, name: &str) -> (out: usize)
    ensures
        out == first_index(values_of(providers@), is_named(name@)),
        out <= providers.len(),
{
    let mut i: usize = 0;
    while i < providers.len()
        invariant
            i <= providers.len(),
            forall|k: int| 0 <= k < i ==> !is_named(name@)(#[trigger] values_of(providers@)[k]),
        decreases providers.len() - i,
    {
        let found = match provider_name_of(&providers[i]) {
            Some(other) => same_text(other, name),
            None => false,
        };
        if found {
            proof {
                lemma_first_index_is(values_of(providers@), is_named(name@), i as int);
            }
            return i;
        }
        i += 1;
    }
    proof {
        lemma_first_index_is(values_of(providers@), is_named(name@), i as int);
    }
    i
}

/// The stored item `stored` with its embedding brought up to date from
/// `incoming`.
pub fn refresh(stored: &Json, incoming: &Json) -> (out: Json)
    ensures
        out@ == refreshed(stored@, incoming@),
{
    match incoming.get("embedding") {
        Some(e) => stored.duplicate().with_field("embedding", e.duplicate()),
        None => stored.duplicate(),
    }
}

/// The stored items with a copy of each of the incoming items merged in.
pub fn merge_items_into(items: Vec<Json>, incoming: &Vec<Json>) -> (out: Vec<Json>)
    ensures
        values_of(out@) == merge_items(values_of(items@), values_of(incoming@)),
{
    let ghost start = values_of(items@);
    let ghost all = values_of(incoming@);
    let mut items = items;
    let mut j: usize = 0;
    assert(all.take(0) =~= Seq::empty());
    while j < incoming.len()
        invariant
            j <= incoming.len(),
            all == values_of(incoming@),
            values_of(items@) == merge_items(start, all.take(j as int)),
        decreases incoming.len() - j,
    {
        let ghost before = values_of(items@);
        assert(all.take(j + 1).drop_last() =~= all.take(j as int));
        assert(all.take(j + 1).last() == incoming@[j as int]@);
        let item = &incoming[j];
        match id_of(item) {
            Some(id) => {
                let i = find_by_id(&items, id);
                if i < items.len() {
                    let updated = refresh(&items[i], item);
                    items.set(i, updated);
                    assert(values_of(items@) =~= before.update(
                        i as int,
                        refreshed(before[i as int], item@),
                    ));
                } else {
                    items.push(item.duplicate());
                    assert(values_of(items@) =~= before.push(item@));
                }
            },
            None => {
                items.push(item.duplicate());
                assert(values_of(items@) =~= before.push(item@));
            },
        }
        j += 1;
    }
    assert(all.take(incoming.len() as int) =~= all);
    items
}

/// The items of `provider`.
pub fn items_of(provider: &Json) -> (out: Vec<Json>)
    ensures
        values_of(out@) == provider_items(provider@),
{
    match provider.get("items") {
        Some(v) => match v.as_array() {
            Some(items) => Json::duplicate_all(items),
            None => {
                let out: Vec<Json> = Vec::new();
                assert(values_of(out@) =~= Seq::empty());
                out
            },
        },
        None => {
            let out: Vec<Json> = Vec::new();
            assert(values_of(out@) =~= Seq::empty());
            out
        },
    }
}

/// The stored providers with a copy of each of the incoming providers
/// merged in.
pub fn merge_providers_into(providers: Vec<Json>, incoming: &Vec<Json>) -> (out: Vec<Json>)
    ensures
        values_of(out@) == merge_providers(values_of(providers@), values_of(incoming@)),
{
    let ghost start = values_of(providers@);
    let ghost all = values_of(incoming@);
    let mut providers = providers;
    let mut j: usize = 0;
    assert(all.take(0) =~= Seq::empty());
    while j < incoming.len()
        invariant
            j <= incoming.len(),
            all == values_of(incoming@),
            values_of(providers@) == merge_providers(start, all.take(j as int)),
        decreases incoming.len() - j,
    {
        let ghost before = values_of(providers@);
        assert(all.take(j + 1).drop_last() =~= all.take(j as int));
        assert(all.take(j + 1).last() == incoming@[j as int]@);
        let provider = &incoming[j];
        match provider_name_of(provider) {
            Some(name) => {
                let i = find_by_name(&providers, name);
                if i < providers.len() {
                    let merged = merge_items_into(items_of(&providers[i]), &items_of(provider));
                    let updated = providers[i].duplicate().with_field("items", Json::array(merged));
                    providers.set(i, updated);
                    assert(values_of(providers@) =~= merge_provider(before, provider@));
                } else {
                    providers.push(provider.duplicate());
                    assert(values_of(providers@) =~= before.push(provider@));
                }
            },
            None => {
                providers.push(provider.duplicate());
                assert(values_of(providers@) =~= before.push(provider@));
            },
        }
        j += 1;
    }
    assert(all.take(incoming.len() as int) =~= all);
    providers
}

/// The providers of a callback payload: what `message.catalog.providers`
/// holds, where that is an array.
pub open spec fn payload_providers(doc: JsonValue) -> Option<Seq<JsonValue>> {
    match doc.pointer("/message/catalog/providers"@) {
        Some(JsonValue::Array(providers)) => Some(providers),
        _ => None,
    }
}

/// The part of a document under the key `key`, or an object without
/// fields where it has none.
pub open spec fn part(doc: JsonValue, key: Seq<char>) -> JsonValue {
    match doc.field(key) {
        Some(p) => p,
        None => JsonValue::Object(Map::empty()),
    }
}

/// A payload with `providers` in place of its providers.
pub open spec fn with_providers(doc: JsonValue, providers: Seq<JsonValue>) -> JsonValue {
    let message = part(doc, "message"@);
    let catalog = part(message, "catalog"@);
    doc.with_field(
        "message"@,
        message.with_field(
            "catalog"@,
            catalog.with_field("providers"@, JsonValue::Array(providers)),
        ),
    )
}

/// What is stored for a provider after a callback: the stored payload
/// with the callback's providers merged in. Where either of the two has
/// no list of providers, the stored payload stays as it is.
pub open spec fn merged_payload(stored: JsonValue, payload: JsonValue) -> JsonValue {
    match (payload_providers(stored), payload_providers(payload)) {
        (Some(old), Some(new)) => with_providers(stored, merge_providers(old, new)),
        _ => stored,
    }
}

/// A copy of the part of `doc` under `key`.
pub fn part_of(doc: &Json, key: &str) -> (out: Json)
    ensures
        out@ == part(doc@, key@),
{
    match doc.get(key) {
        Some(p) => p.duplicate(),
        None => Json::empty_object(),
    }
}

/// The stored payload with the providers of `payload` merged in.
pub fn merge_payload(stored: Json, payload: &Json) -> (out: Json)
    ensures
        out@ == merged_payload(stored@, payload@),
{
    let new = match payload.pointer("/message/catalog/providers") {
        Some(v) => match v.as_array() {
            Some(list) => list,
            None => {
                return stored;
            },
        },
        None => {
            return stored;
        },
    };
    let old = match stored.pointer("/message/catalog/providers") {
        Some(v) => match v.as_array() {
            Some(list) => Json::duplicate_all(list),
            None => {
                return stored;
            },
        },
        None => {
            return stored;
        },
    };
    let merged = merge_providers_into(old, new);
    let message = part_of(&stored, "message");
    let catalog = part_of(&message, "catalog");
    let catalog = catalog.with_field("providers", Json::array(merged));
    let message = message.with_field("catalog", catalog);
    stored.with_field("message", message)
}

/// Where a sweep stands with one provider: the page received, the page
/// size, and the number of items that the provider has in all.
#[derive(Debug, Clone, Copy, PartialEq, Eq, Structural)]
pub struct Pagination {
    pub page: i64,
    pub limit: i64,
    pub total_count: i64,
}

/// The whole number that `i64` holds, of a value that is one.
pub open spec fn whole_i64(value: Option<JsonValue>) -> Option<int> {
    match value {
        Some(JsonValue::Int(n)) => if i64::MIN <= n <= i64::MAX {
            Some(n)
        } else {
            None
        },
        _ => None,
    }
}

/// A whole number, or `fallback` in its place.
pub open spec fn or_default(n: Option<int>, fallback: int) -> int {
    match n {
        Some(n) => n,
        None => fallback,
    }
}

/// The total that a payload states: a whole number, or a string that is
/// the decimal numeral of one; zero for anything else.
pub open spec fn total_of(value: Option<JsonValue>) -> int {
    match value {
        Some(JsonValue::Str(s)) => or_default(signed_decimal(s), 0),
        _ => or_default(whole_i64(value), 0),
    }
}

/// The field `key` of the pagination of a payload.
pub open spec fn pagination_field(doc: JsonValue, key: Seq<char>) -> Option<JsonValue> {
    match doc.pointer("/message/pagination"@) {
        Some(p) => p.field(key),
        None => None,
    }
}

/// The pagination that a payload states: page 1, 30 to a page and a
/// total of zero where it states none.
pub open spec fn pagination_of(doc: JsonValue) -> Pagination {
    Pagination {
        page: or_default(whole_i64(pagination_field(doc, "page"@)), 1) as i64,
        limit: or_default(whole_i64(pagination_field(doc, "limit"@)), 30) as i64,
        total_count: total_of(pagination_field(doc, "totalCount"@)) as i64,
    }
}

/// The number that `value` holds, where it is a whole number within
/// `i64`.
pub fn whole_in(value: Option<&Json>) -> (out: Option<i64>)
    ensures
        match out {
            Some(n) => whole_i64(doc_view(value)) == Some(n as int),
            None => whole_i64(doc_view(value)) is None,
        },
{
    match value {
        Some(v) => v.as_i64(),
        None => None,
    }
}

/// The pagination that the payload `doc` states.
pub fn read_pagination(doc: &Json) -> (out: Pagination)
    ensures
        out == pagination_of(doc@),
{
    let pagination = doc.pointer("/message/pagination");
    let (page, limit, total) = match pagination {
        Some(p) => (p.get("page"), p.get("limit"), p.get("totalCount")),
        None => (None, None, None),
    };
    let page: i64 = match whole_in(page) {
        Some(n) => n,
        None => 1,
    };
    let limit: i64 = match whole_in(limit) {
        Some(n) => n,
        None => 30,
    };
    let total_count: i64 = match text_in(total) {
        Some(s) => {
            let chars = chars_of(s);
            match parse_decimal(&chars) {
                Some(n) => n,
                None => 0,
            }
        },
        None => match whole_in(total) {
            Some(n) => n,
            None => 0,
        },
    };
    Pagination { page, limit, total_count }
}

/// What a sweep does next with one provider.
#[derive(Debug, Clone, Copy, PartialEq, Eq, Structural)]
pub enum SweepStep {
    /// Ask the provider for the page with this number.
    NextPage(i64),
    /// Every page has come in.
    Complete,
}

/// Whether pages are left: the pages received so far hold fewer items
/// than the provider has in all.
pub open spec fn more_pages(p: Pagination) -> bool {
    p.page * p.limit < p.total_count && p.page < i64::MAX
}

/// The next step of a sweep: the following page while pages are left.
pub open spec fn step_after(p: Pagination) -> SweepStep {
    if more_pages(p) {
        SweepStep::NextPage((p.page + 1) as i64)
    } else {
        SweepStep::Complete
    }
}

/// The next step of a sweep that stands at `p`.
pub fn next_step(p: &Pagination) -> (out: SweepStep)
    ensures
        out == step_after(*p),
{
    let a: i128 = p.page as i128;
    let b: i128 = p.limit as i128;
    assert(-0x4000_0000_0000_0000_0000_0000_0000_0000 <= a * b
        <= 0x4000_0000_0000_0000_0000_0000_0000_0000) by (nonlinear_arith)
        requires
            -0x8000_0000_0000_0000 <= a <= 0x8000_0000_0000_0000,
            -0x8000_0000_0000_0000 <= b <= 0x8000_0000_0000_0000,
    ;
    let seen: i128 = a * b;
    if seen < p.total_count as i128 && p.page < i64::MAX {
        SweepStep::NextPage(p.page + 1)
    } else {
        SweepStep::Complete
    }
}

/// The tag that asks for open jobs only.
pub open spec fn status_descriptor() -> JsonValue {
    JsonValue::Object(
        Map::empty().insert("code"@, JsonValue::Str("status"@)).insert(
            "name"@,
            JsonValue::Str("Status"@),
        ),
    )
}

/// The item of an intent that asks for open jobs only.
pub open spec fn open_jobs_item() -> JsonValue {
    object1(
        "tags"@,
        JsonValue::Array(
            seq![
                JsonValue::Object(
                    Map::empty().insert("descriptor"@, status_descriptor()).insert(
                        "list"@,
                        JsonValue::Array(
                            seq![
                                JsonValue::Object(
                                    Map::empty().insert("descriptor"@, status_descriptor()).insert(
                                        "value"@,
                                        JsonValue::Str("open"@),
                                    ),
                                ),
                            ],
                        ),
                    ),
                ),
            ],
        ),
    )
}

/// The pagination of a request for page `page` of `limit` items.
pub open spec fn page_request(page: int, limit: int) -> JsonValue {
    JsonValue::Object(
        Map::empty().insert("page"@, JsonValue::Int(page)).insert("limit"@, JsonValue::Int(limit)),
    )
}

/// The search message for open jobs, page `page` of `limit` items, with
/// the intent `intent`: the intent asks for open jobs, and the answer is
/// to be given in full.
pub open spec fn open_jobs_message(intent: JsonValue, page: int, limit: int) -> JsonValue {
    JsonValue::Object(
        Map::empty().insert("intent"@, intent.with_field("item"@, open_jobs_item())).insert(
            "pagination"@,
            page_request(page, limit),
        ).insert("options"@, object1("brief"@, JsonValue::Bool(false))),
    )
}

/// The intent of a callback payload, or an object without fields where
/// it has none.
pub open spec fn payload_intent(payload: JsonValue) -> JsonValue {
    match payload.pointer("/message/intent"@) {
        Some(i) => i,
        None => JsonValue::Object(Map::empty()),
    }
}

/// The item of an intent that asks for open jobs only.
pub fn build_open_jobs_item() -> (out: Json)
    ensures
        out@ == open_jobs_item(),
{
    let d1 = Json::empty_object().with_field("code", Json::text("status")).with_field(
        "name",
        Json::text("Status"),
    );
    let d2 = Json::empty_object().with_field("code", Json::text("status")).with_field(
        "name",
        Json::text("Status"),
    );
    let entry = Json::empty_object().with_field("descriptor", d2).with_field(
        "value",
        Json::text("open"),
    );
    let mut list: Vec<Json> = Vec::new();
    list.push(entry);
    let ghost entry_value = list@[0]@;
    let listed = Json::array(list);
    assert(listed@->Array_0 =~= seq![entry_value]);
    let tag = Json::empty_object().with_field("descriptor", d1).with_field("list", listed);
    let mut tags: Vec<Json> = Vec::new();
    tags.push(tag);
    let ghost tag_value = tags@[0]@;
    let all = Json::array(tags);
    assert(all@->Array_0 =~= seq![tag_value]);
    Json::empty_object().with_field("tags", all)
}

/// The search message for open jobs, page `page` of `limit` items, with
/// the intent `intent`.
pub fn build_open_jobs_message(intent: Json, page: i64, limit: i64) -> (out: Json)
    ensures
        out@ == open_jobs_message(intent@, page as int, limit as int),
{
    let intent = intent.with_field("item", build_open_jobs_item());
    let pagination = Json::empty_object().with_field("page", Json::Int(page)).with_field(
        "limit",
        Json::Int(limit),
    );
    let options = Json::empty_object().with_field("brief", Json::Bool(false));
    Json::empty_object().with_field("intent", intent).with_field(
        "pagination",
        pagination,
    ).with_field("options", options)
}

/// The first message of a sweep: open jobs, page 1 of `limit` items.
pub fn first_sweep_message(limit: i64) -> (out: Json)
    ensures
        out@ == open_jobs_message(JsonValue::Object(Map::empty()), 1, limit as int),
{
    build_open_jobs_message(Json::empty_object(), 1, limit)
}

/// A stored payload with its page set to `page`, where it states a
/// pagination.
pub open spec fn with_page(doc: JsonValue, page: int) -> JsonValue {
    match doc.pointer("/message/pagination"@) {
        Some(p) => doc.with_field(
            "message"@,
            part(doc, "message"@).with_field(
                "pagination"@,
                p.with_field("page"@, JsonValue::Int(page)),
            ),
        ),
        None => doc,
    }
}

/// The stored payload `doc` with its page set to `page`.
pub fn set_page(doc: Json, page: i64) -> (out: Json)
    ensures
        out@ == with_page(doc@, page as int),
{
    let pagination = match doc.pointer("/message/pagination") {
        Some(p) => p.duplicate(),
        None => {
            return doc;
        },
    };
    let message = part_of(&doc, "message");
    let message = message.with_field("pagination", pagination.with_field("page", Json::Int(page)));
    doc.with_field("message", message)
}

/// What a callback of a sweep leads to: what to store for the provider,
/// the step that follows, the message to send where a page is left, and
/// the provider that the callback came from, of whom that page is asked.
pub struct CronUpdate {
    pub stored: Json,
    pub step: SweepStep,
    pub next_message: Option<Json>,
    pub bpp_id: Option<String>,
    pub bpp_uri: Option<String>,
}

/// The text of an optional string.
pub open spec fn owned_text(text: Option<String>) -> Option<Seq<char>> {
    match text {
        Some(t) => Some(t@),
        None => None,
    }
}

/// The provider that a callback came from: the `bpp_id` of its context.
pub open spec fn callback_provider(payload: JsonValue) -> Option<Seq<char>> {
    text_of_value(payload.pointer("/context/bpp_id"@))
}

/// The address of the provider that a callback came from: the `bpp_uri`
/// of its context.
pub open spec fn callback_address(payload: JsonValue) -> Option<Seq<char>> {
    text_of_value(payload.pointer("/context/bpp_uri"@))
}

/// A copy of the text of `value`, where it is a string.
fn owned_text_in(value: Option<&Json>) -> (out: Option<String>)
    ensures
        owned_text(out) == text_of_value(doc_view(value)),
{
    match text_in(value) {
        Some(t) => Some(t.to_string()),
        None => None,
    }
}

/// The payload that a callback is merged into: what is stored for the
/// provider, or the callback itself where nothing is.
pub open spec fn merge_base(existing: Option<JsonValue>, payload: JsonValue) -> JsonValue {
    match existing {
        Some(e) => e,
        None => payload,
    }
}

/// What a stored payload and a callback merge to.
pub open spec fn merged_with(existing: Option<JsonValue>, payload: JsonValue) -> JsonValue {
    merged_payload(merge_base(existing, payload), payload)
}

/// The value of an optional document.
pub open spec fn owned_view(doc: Option<Json>) -> Option<JsonValue> {
    match doc {
        Some(d) => Some(d@),
        None => None,
    }
}

/// Handles a callback of a sweep for one provider. The callback is merged
/// into what is stored. While pages are left, the next page is asked for
/// with the callback's intent, of the provider that the callback came
/// from, and the stored page is set to it, so that the same page is not
/// asked for twice; otherwise the sweep is complete for this provider.
pub fn handle_cron_on_search(existing: Option<Json>, payload: &Json) -> (out: CronUpdate)
    ensures
        out.step == step_after(pagination_of(merged_with(owned_view(existing), payload@))),
        owned_text(out.bpp_id) == callback_provider(payload@),
        owned_text(out.bpp_uri) == callback_address(payload@),
        match out.step {
            SweepStep::NextPage(page) => {
                &&& out.stored@ == with_page(
                    merged_with(owned_view(existing), payload@),
                    page as int,
                )
                &&& owned_view(out.next_message) == Some(
                    open_jobs_message(
                        payload_intent(payload@),
                        page as int,
                        pagination_of(merged_with(owned_view(existing), payload@)).limit as int,
                    ),
                )
            },
            SweepStep::Complete => {
                &&& out.stored@ == merged_with(owned_view(existing), payload@)
                &&& out.next_message is None
            },
        },
{
    let base = match existing {
        Some(e) => e,
        None => payload.duplicate(),
    };
    let bpp_id = owned_text_in(payload.pointer("/context/bpp_id"));
    let bpp_uri = owned_text_in(payload.pointer("/context/bpp_uri"));
    let merged = merge_payload(base, payload);
    let pagination = read_pagination(&merged);
    let step = next_step(&pagination);
    match step {
        SweepStep::NextPage(page) => {
            let intent = match payload.pointer("/message/intent") {
                Some(i) => i.duplicate(),
                None => Json::empty_object(),
            };
            let message = build_open_jobs_message(intent, page, pagination.limit);
            CronUpdate {
                stored: set_page(merged, page),
                step,
                next_message: Some(message),
                bpp_id,
                bpp_uri,
            }
        },
        SweepStep::Complete => CronUpdate { stored: merged, step, next_message: None, bpp_id, bpp_uri },
    }
}

/// The request for the next page that a callback of the sweep `txn_id`
/// leads to, sent at the time `now`: a search with the same transaction,
/// addressed to the provider that the callback came from. Nothing where
/// no page is left.
pub open spec fn next_request(
    config: AppConfig,
    txn_id: Seq<char>,
    message_id: Seq<char>,
    update: CronUpdate,
    now: Seq<char>,
) -> Option<JsonValue> {
    match update.next_message {
        Some(message) => Some(
            payload_value(
                context_value(
                    config,
                    txn_id,
                    message_id,
                    "search"@,
                    owned_text(update.bpp_id),
                    owned_text(update.bpp_uri),
                    now,
                ),
                message@,
            ),
        ),
        None => None,
    }
}

/// The request for the next page that `update` leads to, in the sweep
/// `txn_id`, sent at the time `now`.
pub fn next_page_request(
    config: &AppConfig,
    txn_id: &str,
    message_id: &str,
    update: &CronUpdate,
    now: &str,
) -> (out: Option<Json>)
    ensures
        owned_view(out) == next_request(*config, txn_id@, message_id@, *update, now@),
{
    match &update.next_message {
        Some(message) => {
            let bpp_id: Option<&str> = match &update.bpp_id {
                Some(b) => Some(b.as_str()),
                None => None,
            };
            let bpp_uri: Option<&str> = match &update.bpp_uri {
                Some(b) => Some(b.as_str()),
                None => None,
            };
            Some(
                build_beckn_payload_at(
                    config,
                    txn_id,
                    message_id,
                    message,
                    "search",
                    bpp_id,
                    bpp_uri,
                    now,
                ),
            )
        },
        None => None,
    }
}

/// How far a sweep is with one provider that replied.
pub struct ProviderProgress {
    pub bpp_id: String,
    pub complete: bool,
}

/// How far a sweep is with one provider, as a mathematical value.
pub struct ProgressView {
    pub bpp_id: Seq<char>,
    pub complete: bool,
}

impl View for ProviderProgress {
    type V = ProgressView;

    open spec fn view(&self) -> ProgressView {
        ProgressView { bpp_id: self.bpp_id@, complete: self.complete }
    }
}

/// How far a sweep is with each provider that replied, in order.
pub open spec fn progress_of(rows: Seq<ProviderProgress>) -> Seq<ProgressView> {
    Seq::new(rows.len(), |i: int| rows[i]@)
}

/// The test that an entry is of the provider `bpp_id`.
pub open spec fn is_of_provider(bpp_id: Seq<char>) -> spec_fn(ProgressView) -> bool {
    |p: ProgressView| p.bpp_id == bpp_id
}

/// The progress of a sweep after a callback of the provider `bpp_id` led
/// to the step `step`: the provider's entry says whether every page of
/// it has come in; a provider that replies for the first time gets an
/// entry.
pub open spec fn progress_after(rows: Seq<ProgressView>, bpp_id: Seq<char>, step: SweepStep) -> Seq<
    ProgressView,
> {
    let entry = ProgressView { bpp_id, complete: step == SweepStep::Complete };
    let i = first_index(rows, is_of_provider(bpp_id));
    if 0 <= i < rows.len() {
        rows.update(i, entry)
    } else {
        rows.push(entry)
    }
}

/// Whether a sweep is complete: every provider that replied has sent
/// every page.
pub open spec fn every_provider_complete(rows: Seq<ProgressView>) -> bool {
    forall|i: int| 0 <= i < rows.len() ==> (#[trigger] rows[i]).complete
}

/// Whether the sweep is complete with every provider in `progress`.
pub fn sweep_complete(progress: &Vec<ProviderProgress>) -> (out: bool)
    ensures
        out == every_provider_complete(progress_of(progress@)),
{
    let mut i: usize = 0;
    while i < progress.len()
        invariant
            i <= progress.len(),
            forall|k: int| 0 <= k < i ==> (#[trigger] progress_of(progress@)[k]).complete,
        decreases progress.len() - i,
    {
        if !progress[i].complete {
            assert(!progress_of(progress@)[i as int].complete);
            return false;
        }
        i += 1;
    }
    true
}

/// The place of the first entry of the provider `bpp_id`, or the number
/// of entries where it has none.
fn find_provider(progress: &Vec<ProviderProgress>, bpp_id: &str) -> (out: usize)
    ensures
        out == first_index(progress_of(progress@), is_of_provider(bpp_id@)),
        out <= progress.len(),
{
    let mut i: usize = 0;
    while i < progress.len()
        invariant
            i <= progress.len(),
            forall|k: int|
                0 <= k < i ==> !is_of_provider(bpp_id@)(#[trigger] progress_of(progress@)[k]),
        decreases progress.len() - i,
    {
        if same_text(progress[i].bpp_id.as_str(), bpp_id) {
            proof {
                lemma_first_index_is(progress_of(progress@), is_of_provider(bpp_id@), i as int);
            }
            return i;
        }
        i += 1;
    }
    proof {
        lemma_first_index_is(progress_of(progress@), is_of_provider(bpp_id@), i as int);
    }
    i
}

/// Records the step that a callback of the provider `bpp_id` led to, and
/// tells whether the sweep is to be named the latest: that is so only
/// once every provider that replied has sent every page.
pub fn close_provider(progress: &mut Vec<ProviderProgress>, bpp_id: &str, step: SweepStep) -> (out:
    bool)
    ensures
        progress_of(final(progress)@) == progress_after(progress_of(old(progress)@), bpp_id@, step),
        out == every_provider_complete(progress_of(final(progress)@)),
{
    let ghost before = progress_of(progress@);
    let complete = match step {
        SweepStep::Complete => true,
        SweepStep::NextPage(_) => false,
    };
    let i = find_provider(progress, bpp_id);
    let entry = ProviderProgress { bpp_id: bpp_id.to_string(), complete };
    if i < progress.len() {
        progress.set(i, entry);
        assert(progress_of(progress@) =~= progress_after(before, bpp_id@, step));
    } else {
        progress.push(entry);
        assert(progress_of(progress@) =~= progress_after(before, bpp_id@, step));
    }
    sweep_complete(progress)
}

/// A sweep is not named the latest while a provider that replied has
/// pages outstanding: neither by a callback that leaves a page to ask
/// for, nor by the last page of one provider while another is still
/// behind.
pub proof fn lemma_latest_waits_for_every_provider(
    rows: Seq<ProgressView>,
    bpp_id: Seq<char>,
    step: SweepStep,
    other: int,
)
    ensures
        step != SweepStep::Complete ==> !every_provider_complete(
            progress_after(rows, bpp_id, step),
        ),
        0 <= other < rows.len() && rows[other].bpp_id != bpp_id && !rows[other].complete
            ==> !every_provider_complete(progress_after(rows, bpp_id, step)),
        step == SweepStep::Complete && (forall|k: int|
            0 <= k < rows.len() && (#[trigger] rows[k]).bpp_id != bpp_id ==> rows[k].complete)
            && (forall|a: int, b: int|
            0 <= a < b < rows.len() ==> (#[trigger] rows[a]).bpp_id != (#[trigger] rows[b]).bpp_id)
            ==> every_provider_complete(progress_after(rows, bpp_id, step)),
{
    let wanted = is_of_provider(bpp_id);
    let after = progress_after(rows, bpp_id, step);
    let i = first_index(rows, wanted);
    lemma_first_index(rows, wanted);
    let at = if 0 <= i < rows.len() {
        i
    } else {
        rows.len() as int
    };
    assert(after[at].bpp_id == bpp_id);
    assert(after[at].complete == (step == SweepStep::Complete));
    if 0 <= other < rows.len() && rows[other].bpp_id != bpp_id && !rows[other].complete {
        assert(after[other] == rows[other]);
    }
    if step == SweepStep::Complete && (forall|k: int|
        0 <= k < rows.len() && (#[trigger] rows[k]).bpp_id != bpp_id ==> rows[k].complete)
        && (forall|a: int, b: int|
        0 <= a < b < rows.len() ==> (#[trigger] rows[a]).bpp_id != (#[trigger] rows[b]).bpp_id) {
        assert forall|k: int| 0 <= k < after.len() implies (#[trigger] after[k]).complete by {
            if k != at {
                assert(after[k] == rows[k]);
                if rows[k].bpp_id == bpp_id {
                    assert(wanted(rows[i]));
                    assert(rows[i].bpp_id == rows[k].bpp_id);
                }
            }
        }
    }
}

/// Whether an item comes in for the first time: nothing is stored for its
/// provider's name, or the provider stored under that name has no item
/// with its identifier. An item or a provider that cannot be identified
/// counts as new.
pub open spec fn first_time(existing: Option<JsonValue>, provider: JsonValue, item: JsonValue) -> bool {
    match existing {
        Some(e) => match (payload_providers(e), provider_name(provider), item_id(item)) {
            (Some(stored), Some(name), Some(id)) => {
                let i = first_index(stored, is_named(name));
                if 0 <= i < stored.len() {
                    first_index(provider_items(stored[i]), has_id(id)) >= provider_items(
                        stored[i],
                    ).len()
                } else {
                    true
                }
            },
            _ => true,
        },
        None => true,
    }
}

/// Whether an embedding is to be requested for an item: it comes in for
/// the first time, and its embedding text holds more than white space.
pub open spec fn wants_embedding(
    existing: Option<JsonValue>,
    provider: JsonValue,
    item: JsonValue,
    rules: Seq<MetaDataMatch>,
) -> bool {
    first_time(existing, provider, item) && has_content(embedding_text(item, rules, true))
}

/// One embedding to request: for the item at `item` of the provider at
/// `provider` in the callback, from the text `text`.
pub struct EmbeddingTask {
    pub provider: usize,
    pub item: usize,
    pub text: String,
}

/// Whether a task is one that the callback calls for.
pub open spec fn task_called_for(
    existing: Option<JsonValue>,
    payload: JsonValue,
    rules: Seq<MetaDataMatch>,
    task: EmbeddingTask,
) -> bool {
    match payload_providers(payload) {
        Some(providers) => {
            &&& task.provider < providers.len()
            &&& task.item < provider_items(providers[task.provider as int]).len()
            &&& task.text@ == embedding_text(
                provider_items(providers[task.provider as int])[task.item as int],
                rules,
                true,
            )
            &&& wants_embedding(
                existing,
                providers[task.provider as int],
                provider_items(providers[task.provider as int])[task.item as int],
                rules,
            )
        },
        None => false,
    }
}

/// Whether `tasks` holds a task for the item at `(a, b)`.
pub open spec fn has_task(tasks: Seq<EmbeddingTask>, a: int, b: int) -> bool {
    exists|k: int| 0 <= k < tasks.len() && (#[trigger] tasks[k]).provider == a && tasks[k].item == b
}

/// Whether the position `(a, b)` comes before `(c, d)`.
pub open spec fn position_before(a: int, b: int, c: int, d: int) -> bool {
    a < c || (a == c && b < d)
}

/// Whether the tasks stand in the order of the callback's items.
pub open spec fn tasks_in_order(tasks: Seq<EmbeddingTask>) -> bool {
    forall|i: int, j: int|
        0 <= i < j < tasks.len() ==> position_before(
            (#[trigger] tasks[i]).provider as int,
            tasks[i].item as int,
            (#[trigger] tasks[j]).provider as int,
            tasks[j].item as int,
        )
}

/// Whether the item at `(a, b)` of the callback wants an embedding.
pub open spec fn position_wants(
    existing: Option<JsonValue>,
    payload: JsonValue,
    rules: Seq<MetaDataMatch>,
    a: int,
    b: int,
) -> bool {
    match payload_providers(payload) {
        Some(providers) => {
            &&& 0 <= a < providers.len()
            &&& 0 <= b < provider_items(providers[a]).len()
            &&& wants_embedding(existing, providers[a], provider_items(providers[a])[b], rules)
        },
        None => false,
    }
}

/// The items of `provider`, where it has a list of them.
pub fn items_in(provider: &Json) -> (out: Option<&Vec<Json>>)
    ensures
        match out {
            Some(items) => values_of(items@) == provider_items(provider@),
            None => provider_items(provider@).len() == 0,
        },
{
    match provider.get("items") {
        Some(v) => v.as_array(),
        None => None,
    }
}

/// The providers of the payload `doc`, where it has a list of them.
pub fn providers_in(doc: &Json) -> (out: Option<&Vec<Json>>)
    ensures
        match out {
            Some(providers) => payload_providers(doc@) == Some(values_of(providers@)),
            None => payload_providers(doc@) is None,
        },
{
    match doc.pointer("/message/catalog/providers") {
        Some(v) => v.as_array(),
        None => None,
    }
}

/// Whether `item` of `provider` comes in for the first time, given what
/// is stored.
pub fn is_first_time(existing: Option<&Json>, provider: &Json, item: &Json) -> (out: bool)
    ensures
        out == first_time(doc_view(existing), provider@, item@),
{
    let stored = match existing {
        Some(e) => match providers_in(e) {
            Some(s) => s,
            None => {
                return true;
            },
        },
        None => {
            return true;
        },
    };
    let name = match provider_name_of(provider) {
        Some(n) => n,
        None => {
            return true;
        },
    };
    let id = match id_of(item) {
        Some(i) => i,
        None => {
            return true;
        },
    };
    let i = find_by_name(stored, name);
    if i < stored.len() {
        match items_in(&stored[i]) {
            Some(items) => find_by_id(items, id) >= items.len(),
            None => {
                proof {
                    lemma_first_index(provider_items(stored@[i as int]@), has_id(id@));
                }
                true
            },
        }
    } else {
        true
    }
}

/// The embeddings to request for a callback: one for each item that
/// comes in for the first time with an embedding text that holds more
/// than white space, in the order of the items.
pub fn embedding_tasks(existing: Option<&Json>, payload: &Json, config: &AppConfig) -> (out: Vec<
    EmbeddingTask,
>)
    ensures
        forall|k: int|
            0 <= k < out.len() ==> task_called_for(
                doc_view(existing),
                payload@,
                config.metadata_match@,
                #[trigger] out@[k],
            ),
        forall|a: int, b: int|
            position_wants(doc_view(existing), payload@, config.metadata_match@, a, b)
                ==> #[trigger] has_task(out@, a, b),
        tasks_in_order(out@),
{
    let mut out: Vec<EmbeddingTask> = Vec::new();
    let providers = match providers_in(payload) {
        Some(p) => p,
        None => {
            return out;
        },
    };
    let ghost old_doc = doc_view(existing);
    let ghost rules = config.metadata_match@;
    let mut a: usize = 0;
    while a < providers.len()
        invariant
            a <= providers.len(),
            payload_providers(payload@) == Some(values_of(providers@)),
            old_doc == doc_view(existing),
            rules == config.metadata_match@,
            forall|k: int|
                0 <= k < out.len() ==> task_called_for(old_doc, payload@, rules, #[trigger] out@[k]),
            forall|k: int| 0 <= k < out.len() ==> (#[trigger] out@[k]).provider < a,
            forall|x: int, y: int|
                x < a && position_wants(old_doc, payload@, rules, x, y) ==> #[trigger] has_task(
                    out@,
                    x,
                    y,
                ),
            tasks_in_order(out@),
        decreases providers.len() - a,
    {
        let provider = &providers[a];
        match items_in(provider) {
            Some(items) => {
                let mut b: usize = 0;
                while b < items.len()
                    invariant
                        a < providers.len(),
                        b <= items.len(),
                        provider == &providers@[a as int],
                        values_of(items@) == provider_items(provider@),
                        payload_providers(payload@) == Some(values_of(providers@)),
                        old_doc == doc_view(existing),
                        rules == config.metadata_match@,
                        forall|k: int|
                            0 <= k < out.len() ==> task_called_for(
                                old_doc,
                                payload@,
                                rules,
                                #[trigger] out@[k],
                            ),
                        forall|k: int|
                            0 <= k < out.len() ==> position_before(
                                (#[trigger] out@[k]).provider as int,
                                out@[k].item as int,
                                a as int,
                                b as int,
                            ),
                        forall|x: int, y: int|
                            position_before(x, y, a as int, b as int) && position_wants(
                                old_doc,
                                payload@,
                                rules,
                                x,
                                y,
                            ) ==> #[trigger] has_task(out@, x, y),
                        tasks_in_order(out@),
                    decreases items.len() - b,
                {
                    let item = &items[b];
                    let ghost before = out@;
                    assert(values_of(items@)[b as int] == item@);
                    assert(values_of(providers@)[a as int] == provider@);
                    let mut pushed = false;
                    if is_first_time(existing, provider, item) {
                        let text = job_text_for_embedding(item, config);
                        if needs_embedding(text.as_str()) {
                            out.push(EmbeddingTask { provider: a, item: b, text });
                            pushed = true;
                        }
                    }
                    proof {
                        assert forall|x: int, y: int|
                            position_before(x, y, a as int, b + 1) && position_wants(
                                old_doc,
                                payload@,
                                rules,
                                x,
                                y,
                            ) implies #[trigger] has_task(out@, x, y) by {
                            if position_before(x, y, a as int, b as int) {
                                assert(has_task(before, x, y));
                                let k = choose|k: int|
                                    0 <= k < before.len() && (#[trigger] before[k]).provider == x
                                        && before[k].item == y;
                                assert(out@[k] == before[k]);
                            } else {
                                assert(x == a && y == b);
                                assert(pushed);
                                assert(out@[out.len() - 1].provider == a);
                            }
                        }
                        assert forall|k: int| 0 <= k < out.len() implies task_called_for(
                            old_doc,
                            payload@,
                            rules,
                            #[trigger] out@[k],
                        ) by {
                            if k < before.len() {
                                assert(out@[k] == before[k]);
                            }
                        }
                        assert forall|i: int, j: int| 0 <= i < j < out.len() implies position_before(
                            (#[trigger] out@[i]).provider as int,
                            out@[i].item as int,
                            (#[trigger] out@[j]).provider as int,
                            out@[j].item as int,
                        ) by {
                            if j < before.len() {
                                assert(out@[i] == before[i]);
                                assert(out@[j] == before[j]);
                            } else {
                                assert(out@[i] == before[i]);
                            }
                        }
                        assert forall|k: int| 0 <= k < out.len() implies position_before(
                            (#[trigger] out@[k]).provider as int,
                            out@[k].item as int,
                            a as int,
                            b + 1,
                        ) by {
                            if k < before.len() {
                                assert(out@[k] == before[k]);
                            }
                        }
                    }
                    b += 1;
                }
            },
            None => {},
        }
        proof {
            assert forall|x: int, y: int|
                x < a + 1 && position_wants(old_doc, payload@, rules, x, y) implies #[trigger] has_task(
                out@,
                x,
                y,
            ) by {
                assert(values_of(providers@)[a as int] == provider@);
                if x == a {
                    assert(position_before(x, y, a as int, provider_items(provider@).len() as int));
                }
            }
        }
        a += 1;
    }
    out
}

/// The embedding that a table holds for the item at `(a, b)`.
pub open spec fn table_entry(table: Seq<Vec<Option<Json>>>, a: int, b: int) -> Option<JsonValue> {
    if 0 <= a < table.len() && 0 <= b < table[a]@.len() {
        owned_view(table[a]@[b])
    } else {
        None
    }
}

/// An item with the embedding that the table holds for it.
pub open spec fn embedded_item(item: JsonValue, entry: Option<JsonValue>) -> JsonValue {
    match entry {
        Some(e) => item.with_field("embedding"@, e),
        None => item,
    }
}

/// A provider with the embeddings that the table holds for its items.
pub open spec fn embedded_provider(
    provider: JsonValue,
    table: Seq<Vec<Option<Json>>>,
    a: int,
) -> JsonValue {
    match provider.field("items"@) {
        Some(JsonValue::Array(items)) => provider.with_field(
            "items"@,
            JsonValue::Array(
                Seq::new(items.len(), |b: int| embedded_item(items[b], table_entry(table, a, b))),
            ),
        ),
        _ => provider,
    }
}

/// A callback payload with the embeddings of a table stashed on its
/// items: the entry at `(a, b)` on the item at `b` of the provider at `a`.
pub open spec fn with_embeddings(payload: JsonValue, table: Seq<Vec<Option<Json>>>) -> JsonValue {
    match payload_providers(payload) {
        Some(providers) => with_providers(
            payload,
            Seq::new(providers.len(), |a: int| embedded_provider(providers[a], table, a)),
        ),
        None => payload,
    }
}

/// The provider `provider`, which stands at `a` in the callback, with the
/// embeddings that the table holds for its items.
fn embed_provider(provider: &Json, table: &Vec<Vec<Option<Json>>>, a: usize) -> (out: Json)
    ensures
        out@ == embedded_provider(provider@, table@, a as int),
{
    let items = match provider.get("items") {
        Some(v) => match v.as_array() {
            Some(items) => items,
            None => {
                return provider.duplicate();
            },
        },
        None => {
            return provider.duplicate();
        },
    };
    let mut out: Vec<Json> = Vec::new();
    let mut b: usize = 0;
    while b < items.len()
        invariant
            b <= items.len(),
            out.len() == b,
            forall|k: int|
                0 <= k < b ==> out@[k]@ == embedded_item(
                    items@[k]@,
                    table_entry(table@, a as int, k),
                ),
        decreases items.len() - b,
    {
        let item = items[b].duplicate();
        let item = if a < table.len() && b < table[a].len() {
            match &table[a][b] {
                Some(e) => item.with_field("embedding", e.duplicate()),
                None => item,
            }
        } else {
            item
        };
        out.push(item);
        b += 1;
    }
    let ghost wanted = Seq::new(
        items@.len(),
        |b: int| embedded_item(values_of(items@)[b], table_entry(table@, a as int, b)),
    );
    assert(values_of(out@) =~= wanted);
    provider.duplicate().with_field("items", Json::array(out))
}

/// The callback payload with the embeddings of `table` stashed on its
/// items.
pub fn attach_embeddings(payload: Json, table: &Vec<Vec<Option<Json>>>) -> (out: Json)
    ensures
        out@ == with_embeddings(payload@, table@),
{
    let providers = match providers_in(&payload) {
        Some(p) => p,
        None => {
            return payload;
        },
    };
    let mut out: Vec<Json> = Vec::new();
    let mut a: usize = 0;
    while a < providers.len()
        invariant
            a <= providers.len(),
            out.len() == a,
            forall|k: int|
                0 <= k < a ==> out@[k]@ == embedded_provider(providers@[k]@, table@, k),
        decreases providers.len() - a,
    {
        out.push(embed_provider(&providers[a], table, a));
        a += 1;
    }
    let ghost wanted = Seq::new(
        providers@.len(),
        |a: int| embedded_provider(values_of(providers@)[a], table@, a),
    );
    assert(values_of(out@) =~= wanted);
    let message = part_of(&payload, "message");
    let catalog = part_of(&message, "catalog");
    let catalog = catalog.with_field("providers", Json::array(out));
    let message = message.with_field("catalog", catalog);
    payload.with_field("message", message)
}

/// The number of items that a sweep asks for with its first page.
pub fn sweep_page_limit() -> (out: i64)
    ensures
        out == 1000,
{
    1000
}

/// What a sweep keeps about itself: that the scheduler started it, for
/// all jobs in full, at the time `now`.
pub open spec fn sweep_description(now: Seq<char>) -> JsonValue {
    JsonValue::Object(
        Map::empty().insert("source"@, JsonValue::Str("cron"@)).insert(
            "brief"@,
            JsonValue::Bool(false),
        ).insert("all_jobs"@, JsonValue::Bool(true)).insert("timestamp"@, JsonValue::Str(now)),
    )
}

/// What a sweep keeps about itself.
pub fn describe_sweep(now: &str) -> (out: Json)
    ensures
        out@ == sweep_description(now@),
{
    Json::empty_object().with_field("source", Json::text("cron")).with_field(
        "brief",
        Json::Bool(false),
    ).with_field("all_jobs", Json::Bool(true)).with_field("timestamp", Json::text(now))
}

/// The identifier of a provider: its `id`, or the empty text where it
/// has none.
pub open spec fn provider_ident(provider: JsonValue) -> Seq<char> {
    match text_of_value(provider.field("id"@)) {
        Some(id) => id,
        None => Seq::empty(),
    }
}

/// The job that an item of a gathered payload makes, where the item has
/// an identifier: the item itself as blob, the descriptor of its
/// provider as metadata, and the hash of the blob.
pub open spec fn job_of_item(
    provider: JsonValue,
    item: JsonValue,
    txn_id: Seq<char>,
    bpp_id: Seq<char>,
    bpp_uri: Seq<char>,
    now: i64,
) -> Option<crate::catalogue::JobView> {
    match item_id(item) {
        Some(id) => Some(
            crate::catalogue::JobView {
                job_id: id,
                provider_id: provider_ident(provider),
                transaction_id: txn_id,
                bpp_id,
                bpp_uri,
                metadata: provider.field("descriptor"@),
                beckn_structure: Some(item),
                hash: crate::hash::job_hash(item),
                last_synced_at: Some(now),
                updated_at: now,
            },
        ),
        None => None,
    }
}

/// The jobs that the first `n` items of a provider make.
pub open spec fn jobs_of_items(
    provider: JsonValue,
    items: Seq<JsonValue>,
    txn_id: Seq<char>,
    bpp_id: Seq<char>,
    bpp_uri: Seq<char>,
    now: i64,
    n: int,
) -> Seq<crate::catalogue::JobView>
    decreases n,
{
    if n <= 0 || n > items.len() {
        Seq::empty()
    } else {
        let before = jobs_of_items(provider, items, txn_id, bpp_id, bpp_uri, now, n - 1);
        match job_of_item(provider, items[n - 1], txn_id, bpp_id, bpp_uri, now) {
            Some(j) => before.push(j),
            None => before,
        }
    }
}

/// The jobs that the first `n` providers of a gathered payload make.
pub open spec fn jobs_of_providers(
    providers: Seq<JsonValue>,
    txn_id: Seq<char>,
    bpp_id: Seq<char>,
    bpp_uri: Seq<char>,
    now: i64,
    n: int,
) -> Seq<crate::catalogue::JobView>
    decreases n,
{
    if n <= 0 || n > providers.len() {
        Seq::empty()
    } else {
        jobs_of_providers(providers, txn_id, bpp_id, bpp_uri, now, n - 1) + jobs_of_items(
            providers[n - 1],
            provider_items(providers[n - 1]),
            txn_id,
            bpp_id,
            bpp_uri,
            now,
            provider_items(providers[n - 1]).len() as int,
        )
    }
}

/// The delivered jobs in `jobs` as catalogue rows made at the second
/// `now`.
pub open spec fn delivered_jobs(jobs: Seq<crate::catalogue::NewJob>, now: i64) -> Seq<
    crate::catalogue::JobView,
> {
    Seq::new(jobs.len(), |i: int| crate::catalogue::delivered(jobs[i], now))
}

/// The jobs that a gathered payload delivers to the catalogue when its
/// sweep closes: one for each item with an identifier, in the order of
/// the providers and their items.
pub fn jobs_of_payload(stored: &Json, txn_id: &str, bpp_id: &str, bpp_uri: &str, now: i64) -> (out:
    Vec<crate::catalogue::NewJob>)
    ensures
        delivered_jobs(out@, now) == match payload_providers(stored@) {
            Some(providers) => jobs_of_providers(
                providers,
                txn_id@,
                bpp_id@,
                bpp_uri@,
                now,
                providers.len() as int,
            ),
            None => Seq::empty(),
        },
{
    let mut out: Vec<crate::catalogue::NewJob> = Vec::new();
    let providers = match providers_in(stored) {
        Some(p) => p,
        None => {
            assert(delivered_jobs(out@, now) =~= Seq::empty());
            return out;
        },
    };
    let ghost all = values_of(providers@);
    let mut a: usize = 0;
    assert(delivered_jobs(out@, now) =~= jobs_of_providers(all, txn_id@, bpp_id@, bpp_uri@, now, 0));
    while a < providers.len()
        invariant
            a <= providers.len(),
            all == values_of(providers@),
            delivered_jobs(out@, now) == jobs_of_providers(
                all,
                txn_id@,
                bpp_id@,
                bpp_uri@,
                now,
                a as int,
            ),
        decreases providers.len() - a,
    {
        let provider = &providers[a];
        let ghost start = delivered_jobs(out@, now);
        assert(all[a as int] == provider@);
        let ghost listed = provider_items(provider@);
        match items_in(provider) {
            Some(items) => {
                let mut b: usize = 0;
                assert(start + jobs_of_items(
                    provider@,
                    listed,
                    txn_id@,
                    bpp_id@,
                    bpp_uri@,
                    now,
                    0,
                ) =~= start);
                while b < items.len()
                    invariant
                        b <= items.len(),
                        listed == values_of(items@),
                        delivered_jobs(out@, now) == start + jobs_of_items(
                            provider@,
                            listed,
                            txn_id@,
                            bpp_id@,
                            bpp_uri@,
                            now,
                            b as int,
                        ),
                    decreases items.len() - b,
                {
                    let item = &items[b];
                    let ghost before = delivered_jobs(out@, now);
                    assert(listed[b as int] == item@);
                    match id_of(item) {
                        Some(id) => {
                            let provider_id = match text_in(provider.get("id")) {
                                Some(p) => p.to_owned(),
                                None => String::new(),
                            };
                            let metadata = match provider.get("descriptor") {
                                Some(d) => Some(d.duplicate()),
                                None => None,
                            };
                            let job = crate::catalogue::NewJob {
                                job_id: id.to_owned(),
                                provider_id,
                                transaction_id: txn_id.to_owned(),
                                bpp_id: bpp_id.to_owned(),
                                bpp_uri: bpp_uri.to_owned(),
                                metadata,
                                beckn_structure: Some(item.duplicate()),
                                hash: crate::hash::compute_job_hash(item),
                                last_synced_at: Some(now),
                            };
                            out.push(job);
                            assert(delivered_jobs(out@, now) =~= before.push(
                                job_of_item(provider@, item@, txn_id@, bpp_id@, bpp_uri@, now)->0,
                            ));
                        },
                        None => {},
                    }
                    assert(delivered_jobs(out@, now) =~= start + jobs_of_items(
                        provider@,
                        listed,
                        txn_id@,
                        bpp_id@,
                        bpp_uri@,
                        now,
                        b + 1,
                    ));
                    b += 1;
                }
            },
            None => {
                assert(start + jobs_of_items(
                    provider@,
                    listed,
                    txn_id@,
                    bpp_id@,
                    bpp_uri@,
                    now,
                    0,
                ) =~= start);
            },
        }
        a += 1;
    }
    out
}

} // verus!
