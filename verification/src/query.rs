//! Queries against the catalogue that a sweep has gathered: filtering,
//! ranking, paging and grouping of the items.

use crate::codec::{json_text, render};
use crate::grouping::{
    add_listed, context_groups_of, provider_groups_of, ContextGroup, ContextGroupView, Grouping,
    Listed, ListedView, ProviderGroup, ProviderGroupView,
};
use crate::models::object1;
use crate::payload::payload_value;
use crate::sweep::doc_view;
use crate::json::{values_of, Json, JsonValue};
use crate::matching::{
    descriptor_name, item_passes, name_of, passes_item, passes_provider, provider_passes, Filters,
    FiltersView,
};
use crate::sweep::{
    id_of, item_id, items_in, payload_providers, provider_items, providers_in,
};
use crate::text::same_text;
use vstd::prelude::*;

verus! {

/// The place of an item in the gathered payloads: which payload, which
/// provider in it, which item of that provider.
#[derive(Debug, Clone, Copy, PartialEq, Eq, Structural)]
pub struct Candidate {
    pub payload: usize,
    pub provider: usize,
    pub item: usize,
}

/// The key by which items count as the same: the identifier, or the JSON
/// text of the item where it has none.
pub open spec fn dedupe_key(item: JsonValue) -> Seq<char> {
    match item_id(item) {
        Some(id) => id,
        None => json_text(item),
    }
}

/// The key by which `item` counts as the same as another.
pub fn key_of_item(item: &Json) -> (out: String)
    ensures
        out@ == dedupe_key(item@),
{
    match id_of(item) {
        Some(id) => id.to_owned(),
        None => render(item),
    }
}

/// An item that passed the filters: its place and its key.
pub struct Hit {
    pub place: Candidate,
    pub key: String,
}

/// An item that passed the filters, as a mathematical value.
pub struct HitView {
    pub place: Candidate,
    pub key: Seq<char>,
}

impl View for Hit {
    type V = HitView;

    open spec fn view(&self) -> HitView {
        HitView { place: self.place, key: self.key@ }
    }
}

/// The hits in `hits`, in order.
pub open spec fn hits_of(hits: Seq<Hit>) -> Seq<HitView> {
    Seq::new(hits.len(), |i: int| hits[i]@)
}

/// The hits among the first `n` of `items`, which are the items of the
/// provider at `(p, a)` with the name `name`.
pub open spec fn item_hits(
    filters: FiltersView,
    name: Seq<char>,
    items: Seq<JsonValue>,
    p: int,
    a: int,
    n: int,
) -> Seq<HitView>
    decreases n,
{
    if n <= 0 || n > items.len() {
        Seq::empty()
    } else {
        let before = item_hits(filters, name, items, p, a, n - 1);
        if item_passes(filters, name, items[n - 1]) {
            before.push(
                HitView {
                    place: Candidate {
                        payload: p as usize,
                        provider: a as usize,
                        item: (n - 1) as usize,
                    },
                    key: dedupe_key(items[n - 1]),
                },
            )
        } else {
            before
        }
    }
}

/// The hits of one provider: those of its items, where the provider
/// passes the provider filter.
pub open spec fn hits_in_provider(filters: FiltersView, provider: JsonValue, p: int, a: int) -> Seq<
    HitView,
> {
    if provider_passes(filters, descriptor_name(provider)) {
        item_hits(
            filters,
            descriptor_name(provider),
            provider_items(provider),
            p,
            a,
            provider_items(provider).len() as int,
        )
    } else {
        Seq::empty()
    }
}

/// The hits among the first `n` of `providers`, the providers of the
/// payload at `p`.
pub open spec fn provider_hits(filters: FiltersView, providers: Seq<JsonValue>, p: int, n: int) -> Seq<
    HitView,
>
    decreases n,
{
    if n <= 0 || n > providers.len() {
        Seq::empty()
    } else {
        provider_hits(filters, providers, p, n - 1) + hits_in_provider(
            filters,
            providers[n - 1],
            p,
            n - 1,
        )
    }
}

/// The providers of a payload, none where it has no list of them.
pub open spec fn providers_or_none(payload: JsonValue) -> Seq<JsonValue> {
    match payload_providers(payload) {
        Some(providers) => providers,
        None => Seq::empty(),
    }
}

/// The hits among the first `n` of `payloads`.
pub open spec fn payload_hits(filters: FiltersView, payloads: Seq<JsonValue>, n: int) -> Seq<HitView>
    decreases n,
{
    if n <= 0 || n > payloads.len() {
        Seq::empty()
    } else {
        payload_hits(filters, payloads, n - 1) + provider_hits(
            filters,
            providers_or_none(payloads[n - 1]),
            n - 1,
            providers_or_none(payloads[n - 1]).len() as int,
        )
    }
}

/// The items of all payloads that pass the filters, in the order of the
/// payloads, their providers and their items.
pub open spec fn all_hits(filters: FiltersView, payloads: Seq<JsonValue>) -> Seq<HitView> {
    payload_hits(filters, payloads, payloads.len() as int)
}

/// Appends the hits of the provider `provider`, which stands at `(p, a)`.
fn push_provider_hits(out: &mut Vec<Hit>, filters: &Filters, provider: &Json, p: usize, a: usize)
    ensures
        hits_of(final(out)@) == hits_of(old(out)@) + hits_in_provider(
            filters@,
            provider@,
            p as int,
            a as int,
        ),
{
    let ghost start = hits_of(out@);
    let name = name_of(provider);
    if !passes_provider(filters, name.as_str()) {
        assert(start + Seq::<HitView>::empty() =~= start);
        return ;
    }
    let items = match items_in(provider) {
        Some(items) => items,
        None => {
            assert(start + Seq::<HitView>::empty() =~= start);
            return ;
        },
    };
    let ghost all = provider_items(provider@);
    let mut b: usize = 0;
    assert(start + item_hits(filters@, name@, all, p as int, a as int, 0) =~= start);
    while b < items.len()
        invariant
            b <= items.len(),
            all == values_of(items@),
            hits_of(out@) == start + item_hits(filters@, name@, all, p as int, a as int, b as int),
        decreases items.len() - b,
    {
        let ghost now = hits_of(out@);
        assert(all[b as int] == items@[b as int]@);
        if passes_item(filters, name.as_str(), &items[b]) {
            let key = key_of_item(&items[b]);
            out.push(Hit { place: Candidate { payload: p, provider: a, item: b }, key });
            assert(hits_of(out@) =~= now.push(
                HitView {
                    place: Candidate { payload: p, provider: a, item: b },
                    key: dedupe_key(all[b as int]),
                },
            ));
        }
        assert(hits_of(out@) =~= start + item_hits(
            filters@,
            name@,
            all,
            p as int,
            a as int,
            b + 1,
        ));
        b += 1;
    }
}

/// The items of `payloads` that pass the filters, in order, each with its
/// place and its key.
pub fn find_hits(payloads: &Vec<Json>, filters: &Filters) -> (out: Vec<Hit>)
    ensures
        hits_of(out@) == all_hits(filters@, values_of(payloads@)),
{
    let mut out: Vec<Hit> = Vec::new();
    let ghost docs = values_of(payloads@);
    let mut p: usize = 0;
    assert(hits_of(out@) =~= payload_hits(filters@, docs, 0));
    while p < payloads.len()
        invariant
            p <= payloads.len(),
            docs == values_of(payloads@),
            hits_of(out@) == payload_hits(filters@, docs, p as int),
        decreases payloads.len() - p,
    {
        let ghost start = hits_of(out@);
        assert(docs[p as int] == payloads@[p as int]@);
        match providers_in(&payloads[p]) {
            Some(providers) => {
                let ghost all = values_of(providers@);
                let mut a: usize = 0;
                assert(start + provider_hits(filters@, all, p as int, 0) =~= start);
                while a < providers.len()
                    invariant
                        a <= providers.len(),
                        all == values_of(providers@),
                        hits_of(out@) == start + provider_hits(filters@, all, p as int, a as int),
                    decreases providers.len() - a,
                {
                    let ghost now = hits_of(out@);
                    assert(all[a as int] == providers@[a as int]@);
                    push_provider_hits(&mut out, filters, &providers[a], p, a);
                    assert(hits_of(out@) =~= start + provider_hits(
                        filters@,
                        all,
                        p as int,
                        a + 1,
                    ));
                    a += 1;
                }
            },
            None => {
                assert(start + provider_hits(
                    filters@,
                    providers_or_none(docs[p as int]),
                    p as int,
                    0,
                ) =~= start);
            },
        }
        p += 1;
    }
    out
}

/// The hits that stay when each key counts once: those whose key no
/// earlier hit has.
pub open spec fn first_of_each_key(hits: Seq<HitView>) -> Seq<Candidate>
    decreases hits.len(),
{
    if hits.len() == 0 {
        Seq::empty()
    } else {
        let before = first_of_each_key(hits.drop_last());
        if has_key(hits.drop_last(), hits.last().key) {
            before
        } else {
            before.push(hits.last().place)
        }
    }
}

/// Whether one of `hits` has the key `key`.
pub open spec fn has_key(hits: Seq<HitView>, key: Seq<char>) -> bool {
    exists|i: int| 0 <= i < hits.len() && (#[trigger] hits[i]).key == key
}

/// The texts in `keys`, in order.
pub open spec fn key_texts(keys: Seq<String>) -> Seq<Seq<char>> {
    Seq::new(keys.len(), |i: int| keys[i]@)
}

/// Whether one of `keys` is `key`.
fn key_seen(keys: &Vec<String>, key: &str) -> (out: bool)
    ensures
        out == key_texts(keys@).contains(key@),
{
    let mut i: usize = 0;
    while i < keys.len()
        invariant
            i <= keys.len(),
            forall|k: int| 0 <= k < i ==> key_texts(keys@)[k] != key@,
        decreases keys.len() - i,
    {
        if same_text(keys[i].as_str(), key) {
            assert(key_texts(keys@)[i as int] == key@);
            return true;
        }
        i += 1;
    }
    false
}

/// The places of the hits that stay when each key counts once.
pub fn dedupe_hits(hits: &Vec<Hit>) -> (out: Vec<Candidate>)
    ensures
        out@ == first_of_each_key(hits_of(hits@)),
{
    let mut out: Vec<Candidate> = Vec::new();
    let mut seen: Vec<String> = Vec::new();
    let ghost all = hits_of(hits@);
    let mut i: usize = 0;
    assert(all.take(0) =~= Seq::empty());
    while i < hits.len()
        invariant
            i <= hits.len(),
            all == hits_of(hits@),
            out@ == first_of_each_key(all.take(i as int)),
            forall|key: Seq<char>|
                key_texts(seen@).contains(key) <==> has_key(all.take(i as int), key),
        decreases hits.len() - i,
    {
        let ghost done = all.take(i as int);
        let ghost next = all.take(i + 1);
        assert(next.drop_last() =~= done);
        assert(next.last() == hits@[i as int]@);
        let ghost before_seen = key_texts(seen@);
        if !key_seen(&seen, hits[i].key.as_str()) {
            out.push(hits[i].place);
            seen.push(hits[i].key.clone());
            assert(key_texts(seen@) =~= before_seen.push(hits@[i as int].key@));
        }
        proof {
            let this_key = hits@[i as int].key@;
            assert forall|key: Seq<char>| key_texts(seen@).contains(key) <==> has_key(
                next,
                key,
            ) by {
                if has_key(next, key) {
                    let k = choose|k: int| 0 <= k < next.len() && (#[trigger] next[k]).key == key;
                    if k < i {
                        assert(done[k] == next[k]);
                        assert(has_key(done, key));
                        assert(before_seen.contains(key));
                        let w = choose|w: int| 0 <= w < before_seen.len() && before_seen[w] == key;
                        assert(key_texts(seen@)[w] == key);
                    } else {
                        assert(key == this_key);
                        if before_seen.contains(this_key) {
                            let w = choose|w: int|
                                0 <= w < before_seen.len() && before_seen[w] == key;
                            assert(key_texts(seen@)[w] == key);
                        } else {
                            assert(key_texts(seen@)[before_seen.len() as int] == key);
                        }
                    }
                }
                if key_texts(seen@).contains(key) {
                    let w = choose|w: int|
                        0 <= w < key_texts(seen@).len() && key_texts(seen@)[w] == key;
                    if w < before_seen.len() {
                        assert(before_seen[w] == key);
                        assert(before_seen.contains(key));
                        assert(has_key(done, key));
                        let k = choose|k: int|
                            0 <= k < done.len() && (#[trigger] done[k]).key == key;
                        assert(next[k] == done[k]);
                    } else {
                        assert(next[i as int].key == key);
                    }
                }
            }
        }
        i += 1;
    }
    assert(all.take(hits.len() as int) =~= all);
    out
}

/// The items that a query selects: those that pass the filters, each key
/// once, in the order of the payloads.
pub open spec fn selected(filters: FiltersView, payloads: Seq<JsonValue>) -> Seq<Candidate> {
    first_of_each_key(all_hits(filters, payloads))
}

/// The places of the items of `payloads` that the filters select.
pub fn select_items(payloads: &Vec<Json>, filters: &Filters) -> (out: Vec<Candidate>)
    ensures
        out@ == selected(filters@, values_of(payloads@)),
{
    let hits = find_hits(payloads, filters);
    dedupe_hits(&hits)
}

/// The score of the item at `i`: zero where none is given.
pub open spec fn score_at(scores: Seq<u8>, i: int) -> int {
    if 0 <= i < scores.len() {
        scores[i] as int
    } else {
        0
    }
}

/// The indices below `n` of the items with the score `s`, ascending.
pub open spec fn with_score(scores: Seq<u8>, n: int, s: int) -> Seq<usize>
    decreases n,
{
    if n <= 0 {
        Seq::empty()
    } else {
        let before = with_score(scores, n - 1, s);
        if score_at(scores, n - 1) == s {
            before.push((n - 1) as usize)
        } else {
            before
        }
    }
}

/// The indices below `n` of the items with a score of at least `s`: by
/// descending score, and among equal scores in ascending order.
pub open spec fn ranked_down_to(scores: Seq<u8>, n: int, s: int) -> Seq<usize>
    decreases 256 - s,
{
    if s > 255 {
        Seq::empty()
    } else {
        ranked_down_to(scores, n, s + 1) + with_score(scores, n, s)
    }
}

/// The order in which `n` items are listed: by descending score where
/// they are ranked, items with equal scores staying in their order; as
/// they stand where they are not.
pub open spec fn listing_order(scores: Seq<u8>, n: int, ranked: bool) -> Seq<usize> {
    if ranked {
        ranked_down_to(scores, n, 0)
    } else {
        Seq::new(
            if n >= 0 {
                n as nat
            } else {
                0
            },
            |i: int| i as usize,
        )
    }
}

/// The indices with one score are indices below `n` with that score, in
/// ascending order, and every such index is among them.
pub proof fn lemma_with_score(scores: Seq<u8>, n: int, s: int)
    requires
        0 <= n <= usize::MAX,
    ensures
        with_score(scores, n, s).len() <= n,
        forall|k: int|
            0 <= k < with_score(scores, n, s).len() ==> 0 <= (#[trigger] with_score(
                scores,
                n,
                s,
            )[k]) < n && score_at(scores, with_score(scores, n, s)[k] as int) == s,
        forall|i: int|
            0 <= i < n && score_at(scores, i) == s ==> with_score(scores, n, s).contains(
                i as usize,
            ),
    decreases n,
{
    if n > 0 {
        lemma_with_score(scores, n - 1, s);
        let before = with_score(scores, n - 1, s);
        let now = with_score(scores, n, s);
        assert forall|i: int| 0 <= i < n && score_at(scores, i) == s implies now.contains(
            i as usize,
        ) by {
            if i < n - 1 {
                assert(before.contains(i as usize));
                let k = choose|k: int| 0 <= k < before.len() && before[k] == i as usize;
                assert(now[k] == i as usize);
            } else {
                assert(now[now.len() - 1] == i as usize);
            }
        }
    }
}

/// A ranking lists scores in descending order, and lists every item with
/// a score of at least `s`.
pub proof fn lemma_ranked(scores: Seq<u8>, n: int, s: int)
    requires
        0 <= n <= usize::MAX,
        0 <= s <= 256,
    ensures
        forall|k: int|
            0 <= k < ranked_down_to(scores, n, s).len() ==> 0 <= (#[trigger] ranked_down_to(
                scores,
                n,
                s,
            )[k]) < n && score_at(scores, ranked_down_to(scores, n, s)[k] as int) >= s,
        forall|x: int, y: int|
            0 <= x < y < ranked_down_to(scores, n, s).len() ==> score_at(
                scores,
                (#[trigger] ranked_down_to(scores, n, s)[x]) as int,
            ) >= score_at(scores, (#[trigger] ranked_down_to(scores, n, s)[y]) as int),
        forall|i: int|
            0 <= i < n && score_at(scores, i) >= s ==> ranked_down_to(scores, n, s).contains(
                i as usize,
            ),
    decreases 256 - s,
{
    if s <= 255 {
        lemma_ranked(scores, n, s + 1);
        lemma_with_score(scores, n, s);
        let high = ranked_down_to(scores, n, s + 1);
        let same = with_score(scores, n, s);
        let all = ranked_down_to(scores, n, s);
        assert(all =~= high + same);
        assert forall|k: int| 0 <= k < all.len() implies 0 <= (#[trigger] all[k]) < n && score_at(
            scores,
            all[k] as int,
        ) >= s by {
            if k < high.len() {
                assert(all[k] == high[k]);
            } else {
                assert(all[k] == same[k - high.len()]);
            }
        }
        assert forall|x: int, y: int| 0 <= x < y < all.len() implies score_at(
            scores,
            (#[trigger] all[x]) as int,
        ) >= score_at(scores, (#[trigger] all[y]) as int) by {
            if y < high.len() {
                assert(all[x] == high[x]);
                assert(all[y] == high[y]);
            } else if x < high.len() {
                assert(all[x] == high[x]);
                assert(all[y] == same[y - high.len()]);
            } else {
                assert(all[x] == same[x - high.len()]);
                assert(all[y] == same[y - high.len()]);
            }
        }
        assert forall|i: int| 0 <= i < n && score_at(scores, i) >= s implies all.contains(
            i as usize,
        ) by {
            if score_at(scores, i) == s {
                assert(same.contains(i as usize));
                let k = choose|k: int| 0 <= k < same.len() && same[k] == i as usize;
                assert(all[high.len() + k] == i as usize);
            } else {
                assert(high.contains(i as usize));
                let k = choose|k: int| 0 <= k < high.len() && high[k] == i as usize;
                assert(all[k] == i as usize);
            }
        }
    } else {
        assert forall|i: int| 0 <= i < n implies score_at(scores, i) < 256 by {}
    }
}

/// The order in which `n` items with the scores `scores` are listed.
pub fn rank_items(scores: &Vec<u8>, n: usize, ranked: bool) -> (out: Vec<usize>)
    ensures
        out@ == listing_order(scores@, n as int, ranked),
{
    let mut out: Vec<usize> = Vec::new();
    if !ranked {
        let mut i: usize = 0;
        while i < n
            invariant
                i <= n,
                out.len() == i,
                forall|k: int| 0 <= k < i ==> out@[k] == k as usize,
            decreases n - i,
        {
            out.push(i);
            i += 1;
        }
        assert(out@ =~= listing_order(scores@, n as int, ranked));
        return out;
    }
    let mut s: u16 = 256;
    while s > 0
        invariant
            s <= 256,
            out@ == ranked_down_to(scores@, n as int, s as int),
        decreases s,
    {
        s -= 1;
        let ghost high = out@;
        let mut i: usize = 0;
        assert(high + with_score(scores@, 0, s as int) =~= high);
        while i < n
            invariant
                i <= n,
                s <= 255,
                out@ == high + with_score(scores@, i as int, s as int),
            decreases n - i,
        {
            let score: u16 = if i < scores.len() {
                scores[i] as u16
            } else {
                0
            };
            if score == s {
                out.push(i);
            }
            assert(out@ =~= high + with_score(scores@, i + 1, s as int));
            i += 1;
        }
    }
    out
}

/// The first index of a page: `limit` items to a page, pages counted
/// from one, a page zero counting as the first; never beyond `total`.
pub open spec fn page_start(total: int, page: int, limit: int) -> int {
    let skipped = if page <= 1 {
        0
    } else {
        (page - 1) * limit
    };
    if skipped < total {
        skipped
    } else {
        total
    }
}

/// The index behind the last of a page.
pub open spec fn page_end(total: int, page: int, limit: int) -> int {
    let start = page_start(total, page, limit);
    if start + limit < total {
        start + limit
    } else {
        total
    }
}

/// The index range of the page `page` of `limit` items, of `total` items.
pub fn page_window(total: usize, page: usize, limit: usize) -> (out: (usize, usize))
    ensures
        out.0 == page_start(total as int, page as int, limit as int),
        out.1 == page_end(total as int, page as int, limit as int),
        out.0 <= out.1 <= total,
{
    let start: usize = if page <= 1 {
        0
    } else {
        let pages: u128 = (page - 1) as u128;
        let size: u128 = limit as u128;
        assert(0 <= pages * size <= 0xffff_ffff_ffff_ffff * 0xffff_ffff_ffff_ffff) by (nonlinear_arith)
            requires
                0 <= pages <= 0xffff_ffff_ffff_ffff,
                0 <= size <= 0xffff_ffff_ffff_ffff,
        ;
        let skipped: u128 = pages * size;
        if skipped < total as u128 {
            skipped as usize
        } else {
            total
        }
    };
    let end: usize = if limit < total - start {
        start + limit
    } else {
        total
    };
    (start, end)
}

/// The value itself, or `null` where there is none.
pub open spec fn or_null(value: Option<JsonValue>) -> JsonValue {
    match value {
        Some(v) => v,
        None => JsonValue::Null,
    }
}

/// The value itself, or an array without items where there is none.
pub open spec fn or_no_items(value: Option<JsonValue>) -> JsonValue {
    match value {
        Some(v) => v,
        None => JsonValue::Array(Seq::empty()),
    }
}

/// The head under which the items of a provider are listed: its
/// descriptor and identifier, `null` where it has none, and its
/// fulfilments and locations, none where it has none.
pub open spec fn provider_head(provider: JsonValue) -> JsonValue {
    JsonValue::Object(
        Map::empty().insert("descriptor"@, or_null(provider.field("descriptor"@))).insert(
            "id"@,
            or_null(provider.field("id"@)),
        ).insert("fulfillments"@, or_no_items(provider.field("fulfillments"@))).insert(
            "locations"@,
            or_no_items(provider.field("locations"@)),
        ),
    )
}

/// An item as it is shown: without its embedding, and with its score. An
/// item that is no object is shown as an object with the score alone.
pub open spec fn shown_item(item: JsonValue, score: int) -> JsonValue {
    let base = match item {
        JsonValue::Object(_) => item,
        _ => JsonValue::Object(Map::empty()),
    };
    base.without_field("embedding"@).with_field("match_score"@, JsonValue::Int(score))
}

/// The provider at the place `c`, where the payloads have one there.
pub open spec fn place_provider(payloads: Seq<JsonValue>, c: Candidate) -> Option<JsonValue> {
    if c.payload < payloads.len() && c.provider < providers_or_none(
        payloads[c.payload as int],
    ).len() {
        Some(providers_or_none(payloads[c.payload as int])[c.provider as int])
    } else {
        None
    }
}

/// The item at the place `c`, where the payloads have one there.
pub open spec fn place_item(payloads: Seq<JsonValue>, c: Candidate) -> Option<JsonValue> {
    match place_provider(payloads, c) {
        Some(provider) => if c.item < provider_items(provider).len() {
            Some(provider_items(provider)[c.item as int])
        } else {
            None
        },
        None => None,
    }
}

/// What is listed for the item at the place `c` with the score `score`:
/// the item as shown, the head of its provider, grouped by the JSON text
/// of the provider's descriptor, and the context of its payload, grouped
/// by its JSON text.
pub open spec fn listed_at(payloads: Seq<JsonValue>, c: Candidate, score: int) -> Option<ListedView> {
    match (place_provider(payloads, c), place_item(payloads, c)) {
        (Some(provider), Some(item)) => Some(
            ListedView {
                context_key: json_text(or_null(payloads[c.payload as int].field("context"@))),
                context: or_null(payloads[c.payload as int].field("context"@)),
                provider_key: json_text(or_null(provider.field("descriptor"@))),
                head: provider_head(provider),
                item: shown_item(item, score),
            },
        ),
        _ => None,
    }
}

/// What is listed for the `k`-th of the candidates.
pub open spec fn listed_for(
    payloads: Seq<JsonValue>,
    cands: Seq<Candidate>,
    scores: Seq<u8>,
    k: int,
) -> Option<ListedView> {
    if 0 <= k < cands.len() {
        listed_at(payloads, cands[k], score_at(scores, k))
    } else {
        None
    }
}

/// The groups of the candidates that stand at the places `from .. to` of
/// the listing order.
pub open spec fn listing(
    payloads: Seq<JsonValue>,
    cands: Seq<Candidate>,
    scores: Seq<u8>,
    order: Seq<usize>,
    from: int,
    to: int,
) -> Seq<ContextGroupView>
    decreases to - from,
{
    if to <= from || to > order.len() {
        Seq::empty()
    } else {
        let before = listing(payloads, cands, scores, order, from, to - 1);
        match listed_for(payloads, cands, scores, order[to - 1] as int) {
            Some(e) => add_listed(before, e),
            None => before,
        }
    }
}

/// The providers of a group as they are shown: each head with its items.
pub open spec fn shown_providers(providers: Seq<ProviderGroupView>) -> Seq<JsonValue> {
    Seq::new(
        providers.len(),
        |j: int| providers[j].head.with_field("items"@, JsonValue::Array(providers[j].items)),
    )
}

/// A group as it is shown: a payload with the group's context and a
/// catalogue of its providers.
pub open spec fn shown_group(group: ContextGroupView) -> JsonValue {
    payload_value(
        group.context,
        object1(
            "catalog"@,
            object1("providers"@, JsonValue::Array(shown_providers(group.providers))),
        ),
    )
}

/// The groups as they are shown.
pub open spec fn shown_groups(groups: Seq<ContextGroupView>) -> Seq<JsonValue> {
    Seq::new(groups.len(), |i: int| shown_group(groups[i]))
}

/// The answer to a query: the page asked for, the page size, the number
/// of items selected in all, and the groups of the items on the page.
pub open spec fn response_value(
    page: int,
    limit: int,
    total: int,
    groups: Seq<ContextGroupView>,
) -> JsonValue {
    JsonValue::Object(
        Map::empty().insert(
            "pagination"@,
            JsonValue::Object(
                Map::empty().insert("page"@, JsonValue::Int(page)).insert(
                    "limit"@,
                    JsonValue::Int(limit),
                ).insert("totalCount"@, JsonValue::Int(total)),
            ),
        ).insert("results"@, JsonValue::Array(shown_groups(groups))),
    )
}

/// The answer to a query over the gathered payloads, for the candidates
/// selected and their scores: the candidates are put in listing order,
/// the page asked for is cut out, and its items are grouped.
pub open spec fn search_response(
    payloads: Seq<JsonValue>,
    cands: Seq<Candidate>,
    scores: Seq<u8>,
    ranked: bool,
    page: int,
    limit: int,
) -> JsonValue {
    let order = listing_order(scores, cands.len() as int, ranked);
    let total = cands.len() as int;
    response_value(
        page,
        limit,
        total,
        listing(
            payloads,
            cands,
            scores,
            order,
            page_start(total, page, limit),
            page_end(total, page, limit),
        ),
    )
}

/// A copy of `value`, or `null` where there is none.
fn copy_or_null(value: Option<&Json>) -> (out: Json)
    ensures
        out@ == or_null(doc_view(value)),
{
    match value {
        Some(v) => v.duplicate(),
        None => Json::Null,
    }
}

/// A copy of `value`, or an array without items where there is none.
fn copy_or_no_items(value: Option<&Json>) -> (out: Json)
    ensures
        out@ == or_no_items(doc_view(value)),
{
    match value {
        Some(v) => v.duplicate(),
        None => {
            let none: Vec<Json> = Vec::new();
            let out = Json::array(none);
            assert(out@->Array_0 =~= Seq::empty());
            out
        },
    }
}

/// The head under which the items of `provider` are listed.
pub fn head_of(provider: &Json) -> (out: Json)
    ensures
        out@ == provider_head(provider@),
{
    Json::empty_object().with_field("descriptor", copy_or_null(provider.get("descriptor"))).with_field(
        "id",
        copy_or_null(provider.get("id")),
    ).with_field("fulfillments", copy_or_no_items(provider.get("fulfillments"))).with_field(
        "locations",
        copy_or_no_items(provider.get("locations")),
    )
}

/// The item `item` as it is shown with the score `score`.
pub fn show_item(item: &Json, score: u8) -> (out: Json)
    ensures
        out@ == shown_item(item@, score as int),
{
    let base = match item {
        Json::Object(_) => item.duplicate(),
        _ => Json::empty_object(),
    };
    base.without_field("embedding").with_field("match_score", Json::Int(score as i64))
}

/// The provider and the item at the place `c`.
pub fn at_place<'a>(payloads: &'a Vec<Json>, c: &Candidate) -> (out: Option<(&'a Json, &'a Json)>)
    ensures
        match out {
            Some(found) => place_provider(values_of(payloads@), *c) == Some(found.0@)
                && place_item(values_of(payloads@), *c) == Some(found.1@),
            None => place_item(values_of(payloads@), *c) is None,
        },
{
    if c.payload >= payloads.len() {
        return None;
    }
    assert(values_of(payloads@)[c.payload as int] == payloads@[c.payload as int]@);
    let providers = match providers_in(&payloads[c.payload]) {
        Some(p) => p,
        None => {
            return None;
        },
    };
    if c.provider >= providers.len() {
        return None;
    }
    let provider = &providers[c.provider];
    assert(values_of(providers@)[c.provider as int] == provider@);
    let items = match items_in(provider) {
        Some(i) => i,
        None => {
            return None;
        },
    };
    if c.item >= items.len() {
        return None;
    }
    assert(values_of(items@)[c.item as int] == items@[c.item as int]@);
    Some((provider, &items[c.item]))
}

/// What is listed for the item at the place `c` with the score `score`.
pub fn list_place(payloads: &Vec<Json>, c: &Candidate, score: u8) -> (out: Option<Listed>)
    ensures
        match out {
            Some(e) => listed_at(values_of(payloads@), *c, score as int) == Some(e@),
            None => listed_at(values_of(payloads@), *c, score as int) is None,
        },
{
    match at_place(payloads, c) {
        Some((provider, item)) => {
            assert(values_of(payloads@)[c.payload as int] == payloads@[c.payload as int]@);
            let context = copy_or_null(payloads[c.payload].get("context"));
            let descriptor = copy_or_null(provider.get("descriptor"));
            Some(
                Listed {
                    context_key: render(&context),
                    context,
                    provider_key: render(&descriptor),
                    head: head_of(provider),
                    item: show_item(item, score),
                },
            )
        },
        None => None,
    }
}

/// The providers of a group as they are shown.
fn show_providers(providers: &Vec<ProviderGroup>) -> (out: Vec<Json>)
    ensures
        values_of(out@) == shown_providers(provider_groups_of(providers@)),
{
    let mut out: Vec<Json> = Vec::new();
    let mut j: usize = 0;
    while j < providers.len()
        invariant
            j <= providers.len(),
            out.len() == j,
            forall|k: int|
                0 <= k < j ==> out@[k]@ == providers@[k]@.head.with_field(
                    "items"@,
                    JsonValue::Array(providers@[k]@.items),
                ),
        decreases providers.len() - j,
    {
        let items = Json::array(Json::duplicate_all(&providers[j].items));
        out.push(providers[j].head.duplicate().with_field("items", items));
        j += 1;
    }
    assert(values_of(out@) =~= shown_providers(provider_groups_of(providers@)));
    out
}

/// The groups as they are shown.
pub fn show_groups(groups: &Vec<ContextGroup>) -> (out: Vec<Json>)
    ensures
        values_of(out@) == shown_groups(context_groups_of(groups@)),
{
    let mut out: Vec<Json> = Vec::new();
    let mut i: usize = 0;
    while i < groups.len()
        invariant
            i <= groups.len(),
            out.len() == i,
            forall|k: int| 0 <= k < i ==> out@[k]@ == shown_group(groups@[k]@),
        decreases groups.len() - i,
    {
        let providers = Json::array(show_providers(groups[i].providers()));
        let catalog = Json::empty_object().with_field("providers", providers);
        let message = Json::empty_object().with_field("catalog", catalog);
        out.push(
            Json::empty_object().with_field("context", groups[i].context().duplicate()).with_field(
                "message",
                message,
            ),
        );
        i += 1;
    }
    assert(values_of(out@) =~= shown_groups(context_groups_of(groups@)));
    out
}

/// The number `n` as a document.
pub fn count_json(n: usize) -> (out: Json)
    ensures
        out@ == JsonValue::Int(n as int),
{
    if n as u64 <= 9223372036854775807u64 {
        Json::Int(n as i64)
    } else {
        Json::UInt(n as u64)
    }
}

/// The answer to a query over `payloads`, for the candidates `cands` with
/// the scores `scores`, ranked by score or not, page `page` of `limit`
/// items.
pub fn build_search_response(
    payloads: &Vec<Json>,
    cands: &Vec<Candidate>,
    scores: &Vec<u8>,
    ranked: bool,
    page: usize,
    limit: usize,
) -> (out: Json)
    ensures
        out@ == search_response(
            values_of(payloads@),
            cands@,
            scores@,
            ranked,
            page as int,
            limit as int,
        ),
{
    let order = rank_items(scores, cands.len(), ranked);
    let (start, end) = page_window(cands.len(), page, limit);
    let mut grouping = Grouping::new();
    let ghost docs = values_of(payloads@);
    let mut k: usize = start;
    proof {
        lemma_listing_order_len(scores@, cands.len() as int, ranked);
    }
    while k < end
        invariant
            start <= k <= end <= order.len(),
            docs == values_of(payloads@),
            grouping.well_formed(),
            grouping@ == listing(docs, cands@, scores@, order@, start as int, k as int),
        decreases end - k,
    {
        let at = order[k];
        if at < cands.len() {
            let score: u8 = if at < scores.len() {
                scores[at]
            } else {
                0
            };
            match list_place(payloads, &cands[at], score) {
                Some(e) => {
                    grouping.add(e);
                },
                None => {},
            }
        }
        k += 1;
    }
    let groups = grouping.into_groups();
    let results = Json::array(show_groups(&groups));
    let pagination = Json::empty_object().with_field("page", count_json(page)).with_field(
        "limit",
        count_json(limit),
    ).with_field("totalCount", count_json(cands.len()));
    Json::empty_object().with_field("pagination", pagination).with_field("results", results)
}

/// The indices with one score are as many as the items with that score.
pub proof fn lemma_listing_order_len(scores: Seq<u8>, n: int, ranked: bool)
    requires
        0 <= n <= usize::MAX,
    ensures
        listing_order(scores, n, ranked).len() == n,
{
    if ranked {
        lemma_ranked_len(scores, n, 0);
        lemma_count_upto_all(scores, n);
    }
}

/// The number of items below `n` with a score of at least `s`.
pub open spec fn count_at_least(scores: Seq<u8>, n: int, s: int) -> int
    decreases n,
{
    if n <= 0 {
        0
    } else {
        count_at_least(scores, n - 1, s) + if score_at(scores, n - 1) >= s {
            1int
        } else {
            0int
        }
    }
}

/// Every score is at least zero.
pub proof fn lemma_count_upto_all(scores: Seq<u8>, n: int)
    requires
        0 <= n,
    ensures
        count_at_least(scores, n, 0) == n,
    decreases n,
{
    if n > 0 {
        lemma_count_upto_all(scores, n - 1);
    }
}

/// No score is above 255.
pub proof fn lemma_count_above_none(scores: Seq<u8>, n: int)
    requires
        0 <= n,
    ensures
        count_at_least(scores, n, 256) == 0,
    decreases n,
{
    if n > 0 {
        lemma_count_above_none(scores, n - 1);
    }
}

/// The items with a score of at least `s` are those with the score `s`
/// and those with a score of at least `s + 1`.
pub proof fn lemma_count_split(scores: Seq<u8>, n: int, s: int)
    requires
        0 <= n,
    ensures
        count_at_least(scores, n, s) == count_at_least(scores, n, s + 1) + with_score(
            scores,
            n,
            s,
        ).len(),
    decreases n,
{
    if n > 0 {
        lemma_count_split(scores, n - 1, s);
    }
}

/// A ranking down to `s` lists as many indices as there are items with a
/// score of at least `s`.
pub proof fn lemma_ranked_len(scores: Seq<u8>, n: int, s: int)
    requires
        0 <= n,
        0 <= s <= 256,
    ensures
        ranked_down_to(scores, n, s).len() == count_at_least(scores, n, s),
    decreases 256 - s,
{
    if s <= 255 {
        lemma_ranked_len(scores, n, s + 1);
        lemma_count_split(scores, n, s);
    } else {
        lemma_count_above_none(scores, n);
    }
}

/// A query against the gathered catalogue.
pub struct SearchRequestV2 {
    pub page: Option<u32>,
    pub limit: Option<u32>,
    pub provider: Option<String>,
    pub role: Option<String>,
    pub query: Option<String>,
    pub primary_filters: Option<String>,
    pub exclude_filters: Option<String>,
    /// The profile to rank the items for.
    pub profile: Option<Json>,
}

/// The text of an optional string.
pub open spec fn string_view(text: Option<String>) -> Option<Seq<char>> {
    match text {
        Some(t) => Some(t@),
        None => None,
    }
}

/// The borrowed text of an optional string.
fn borrowed(text: &Option<String>) -> (out: Option<&str>)
    ensures
        crate::matching::optional_text(out) == string_view(*text),
{
    match text {
        Some(t) => Some(t.as_str()),
        None => None,
    }
}

impl SearchRequestV2 {
    /// The filters that the request states.
    pub open spec fn filters(self) -> FiltersView {
        crate::matching::filters_of(
            string_view(self.provider),
            string_view(self.role),
            string_view(self.query),
            string_view(self.primary_filters),
            string_view(self.exclude_filters),
        )
    }

    /// The page asked for: the first where none is stated.
    pub open spec fn page_number(self) -> int {
        match self.page {
            Some(p) => p as int,
            None => 1,
        }
    }

    /// The page size asked for: ten where none is stated.
    pub open spec fn page_size(self) -> int {
        match self.limit {
            Some(l) => l as int,
            None => 10,
        }
    }

    /// The filters that the request states.
    pub fn prepare(&self) -> (out: Filters)
        ensures
            out@ == self.filters(),
    {
        crate::matching::prepare_filters(
            borrowed(&self.provider),
            borrowed(&self.role),
            borrowed(&self.query),
            borrowed(&self.primary_filters),
            borrowed(&self.exclude_filters),
        )
    }
}

/// The embedding that is stored with the item at the place `c`, if the
/// item is there and has one.
pub fn stored_embedding<'a>(payloads: &'a Vec<Json>, c: &Candidate) -> (out: Option<&'a Json>)
    ensures
        doc_view(out) == match place_item(values_of(payloads@), *c) {
            Some(item) => item.field("embedding"@),
            None => None,
        },
{
    match at_place(payloads, c) {
        Some((_, item)) => item.get("embedding"),
        None => None,
    }
}

/// The answer to the query `request` over the gathered payloads: the
/// items that the request's filters select, each key once; ranked by the
/// scores where a ranking is asked for; the page asked for, grouped by
/// context and provider.
///
/// `scores` holds the score of each selected item, in the order in which
/// [`select_items`] lists them for the request's filters.
pub fn handle_search_v2(
    payloads: &Vec<Json>,
    request: &SearchRequestV2,
    scores: &Vec<u8>,
    ranked: bool,
) -> (out: Json)
    ensures
        out@ == search_response(
            values_of(payloads@),
            selected(request.filters(), values_of(payloads@)),
            scores@,
            ranked,
            request.page_number(),
            request.page_size(),
        ),
{
    let filters = request.prepare();
    let cands = select_items(payloads, &filters);
    let page: usize = match request.page {
        Some(p) => p as usize,
        None => 1,
    };
    let limit: usize = match request.limit {
        Some(l) => l as usize,
        None => 10,
    };
    build_search_response(payloads, &cands, scores, ranked, page, limit)
}

} // verus!
