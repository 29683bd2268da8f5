//! Synchronisation of profiles from the seeker service: page by page,
//! with a clean-up of what a complete sweep did not see.

use crate::catalogue::{
    blob_view, delivered_profile, lemma_profiles_fresh_after_sweep, profile_upserted, seen_since,
    NewProfile, ProfileView, Profiles,
};
use crate::config::AppConfig;
use crate::hash::{compute_profile_hash_of, profile_hash};
use crate::json::{values_of, Json, JsonValue};
use crate::models::object1;
use crate::seqs::{first_index, lemma_first_index};
use crate::sweep::{doc_view, pagination_field, text_of_value};
use crate::text::{decimal_string, decimal_text};
use vstd::prelude::*;
use vstd::string::StringExecFns;

verus! {

/// A profile as the seeker service sends it.
pub struct ApiProfile {
    pub id: String,
    pub user_id: String,
    pub kind: String,
    pub metadata: Json,
    pub created_at: String,
    pub updated_at: String,
}

/// The content hash of the profile `profile`.
pub fn compute_profile_hash(profile: &ApiProfile) -> (out: String)
    ensures
        out@ == profile_hash(
            profile.id@,
            profile.user_id@,
            profile.kind@,
            profile.metadata@,
            profile.created_at@,
            profile.updated_at@,
        ),
{
    compute_profile_hash_of(
        profile.id.as_str(),
        profile.user_id.as_str(),
        profile.kind.as_str(),
        &profile.metadata,
        profile.created_at.as_str(),
        profile.updated_at.as_str(),
    )
}

/// The name in the metadata of a profile, or `unknown`.
pub open spec fn profile_name(metadata: JsonValue) -> Seq<char> {
    match text_of_value(metadata.field("name"@)) {
        Some(n) => n,
        None => "unknown"@,
    }
}

/// The catalogue item of a profile: its identifier, its name as
/// descriptor, and its metadata as a tag.
pub open spec fn beckn_structure(profile_id: Seq<char>, metadata: JsonValue) -> JsonValue {
    JsonValue::Object(
        Map::empty().insert("id"@, JsonValue::Str(profile_id)).insert(
            "descriptor"@,
            object1("name"@, JsonValue::Str(profile_name(metadata))),
        ).insert("tags"@, object1("profile"@, metadata)),
    )
}

/// The catalogue item of the profile `profile_id` with the metadata
/// `metadata`.
pub fn build_beckn_structure(profile_id: &str, metadata: &Json) -> (out: Json)
    ensures
        out@ == beckn_structure(profile_id@, metadata@),
{
    let name = match crate::sweep::text_in(metadata.get("name")) {
        Some(n) => Json::text(n),
        None => Json::text("unknown"),
    };
    let descriptor = Json::empty_object().with_field("name", name);
    let tags = Json::empty_object().with_field("profile", metadata.duplicate());
    Json::empty_object().with_field("id", Json::text(profile_id)).with_field(
        "descriptor",
        descriptor,
    ).with_field("tags", tags)
}

/// The catalogue row that a profile of the seeker service makes in a
/// sweep that started at the second `synced_at`.
pub fn to_new_profile(profile: &ApiProfile, synced_at: i64) -> (out: NewProfile)
    ensures
        out.profile_id@ == profile.id@,
        out.user_id@ == profile.user_id@,
        out.kind@ == profile.kind@,
        blob_view(out.metadata) == Some(profile.metadata@),
        blob_view(out.beckn_structure) == Some(beckn_structure(profile.id@, profile.metadata@)),
        out.hash@ == profile_hash(
            profile.id@,
            profile.user_id@,
            profile.kind@,
            profile.metadata@,
            profile.created_at@,
            profile.updated_at@,
        ),
        out.last_synced_at == synced_at,
{
    NewProfile {
        profile_id: profile.id.clone(),
        user_id: profile.user_id.clone(),
        kind: profile.kind.clone(),
        metadata: Some(profile.metadata.duplicate()),
        beckn_structure: Some(build_beckn_structure(profile.id.as_str(), &profile.metadata)),
        hash: compute_profile_hash(profile),
        last_synced_at: synced_at,
    }
}

/// The number of profiles that a sweep asks for with one page.
pub fn sweep_page_size() -> (out: u32)
    ensures
        out == 100,
{
    100
}

/// The address of one page of all profiles.
pub open spec fn page_address(base_url: Seq<char>, page: nat, limit: nat) -> Seq<char> {
    base_url + "/profile/all?page="@ + decimal_text(page) + "&limit="@ + decimal_text(limit)
}

/// The address of the profile with one identifier: the first page of 30
/// of the profiles with that identifier.
pub open spec fn profile_address(base_url: Seq<char>, profile_id: Seq<char>) -> Seq<char> {
    base_url + "/profile/all?profileId="@ + profile_id + "&page=1&limit=30"@
}

/// The address of the page `page` of `limit` profiles.
pub fn profile_page_url(base_url: &str, page: u32, limit: u32) -> (out: String)
    ensures
        out@ == page_address(base_url@, page as nat, limit as nat),
{
    let mut url = String::new();
    url.append(base_url);
    url.append("/profile/all?page=");
    url.append(decimal_string(page as u64).as_str());
    url.append("&limit=");
    url.append(decimal_string(limit as u64).as_str());
    assert(url@ =~= page_address(base_url@, page as nat, limit as nat));
    url
}

/// The address of the profile `profile_id`.
pub fn profile_by_id_url(base_url: &str, profile_id: &str) -> (out: String)
    ensures
        out@ == profile_address(base_url@, profile_id@),
{
    let mut url = String::new();
    url.append(base_url);
    url.append("/profile/all?profileId=");
    url.append(profile_id);
    url.append("&page=1&limit=30");
    assert(url@ =~= profile_address(base_url@, profile_id@));
    url
}

/// What became of one page of a sweep.
#[derive(Debug, Clone, Copy, PartialEq, Eq, Structural)]
pub enum PageOutcome {
    /// The page could not be fetched or read.
    FetchFailed,
    /// The page holds no profiles.
    Empty,
    /// The profiles of the page were stored; the service has this many in
    /// all.
    Stored { total_count: u32 },
    /// The profiles of the page could not be stored.
    StoreFailed,
}

/// What a sweep does after a page.
#[derive(Debug, Clone, Copy, PartialEq, Eq, Structural)]
pub enum SweepNext {
    /// Fetch the page with this number.
    Fetch(u32),
    /// Stop; the sweep has seen every profile, or it has not.
    Finish { completed: bool },
}

/// What a sweep does after the page `page` of `limit` profiles: it stops
/// as failed where the page failed; it stops as complete where the page
/// is empty or the pages so far hold as many profiles as the service has;
/// otherwise it goes on with the next page.
pub open spec fn next_after(page: u32, limit: u32, outcome: PageOutcome) -> SweepNext {
    match outcome {
        PageOutcome::FetchFailed => SweepNext::Finish { completed: false },
        PageOutcome::StoreFailed => SweepNext::Finish { completed: false },
        PageOutcome::Empty => SweepNext::Finish { completed: true },
        PageOutcome::Stored { total_count } => if page * limit >= total_count || page
            == u32::MAX {
            SweepNext::Finish { completed: true }
        } else {
            SweepNext::Fetch((page + 1) as u32)
        },
    }
}

/// What a sweep does after the page `page` of `limit` profiles.
pub fn after_page(page: u32, limit: u32, outcome: PageOutcome) -> (out: SweepNext)
    ensures
        out == next_after(page, limit, outcome),
{
    match outcome {
        PageOutcome::FetchFailed => SweepNext::Finish { completed: false },
        PageOutcome::StoreFailed => SweepNext::Finish { completed: false },
        PageOutcome::Empty => SweepNext::Finish { completed: true },
        PageOutcome::Stored { total_count } => {
            let a: u64 = page as u64;
            let b: u64 = limit as u64;
            assert(0 <= a * b <= 0xffff_ffff * 0xffff_ffff) by (nonlinear_arith)
                requires
                    0 <= a <= 0xffff_ffff,
                    0 <= b <= 0xffff_ffff,
            ;
            let fetched: u64 = a * b;
            if fetched >= total_count as u64 || page == u32::MAX {
                SweepNext::Finish { completed: true }
            } else {
                SweepNext::Fetch(page + 1)
            }
        },
    }
}

/// What follows the end of a sweep: the clean-up of the profiles that it
/// did not see, and a scoring pass; both only after a complete sweep.
#[derive(Debug, Clone, Copy, PartialEq, Eq, Structural)]
pub struct SweepEnd {
    pub delete_stale: bool,
    pub trigger_scoring: bool,
}

/// What follows the end of a sweep.
pub fn sweep_end(completed: bool) -> (out: SweepEnd)
    ensures
        out.delete_stale == completed,
        out.trigger_scoring == completed,
{
    SweepEnd { delete_stale: completed, trigger_scoring: completed }
}

/// A page as the seeker service answered it.
pub enum PageResult {
    /// The page could not be fetched or read.
    Failed,
    /// The profiles of the page, and the number that the service has in
    /// all.
    Page { data: Vec<ApiProfile>, total_count: u32 },
}

/// Whether every profile was seen at the second `since` or later.
pub open spec fn all_seen_since(rows: Seq<ProfileView>, since: i64) -> bool {
    forall|i: int| 0 <= i < rows.len() ==> (#[trigger] rows[i]).last_synced_at >= since
}

/// Whether the profiles of `before` are all still in `after`, each at
/// its place.
pub open spec fn all_kept(before: Seq<ProfileView>, after: Seq<ProfileView>) -> bool {
    &&& before.len() <= after.len()
    &&& forall|i: int|
        0 <= i < before.len() ==> (#[trigger] after[i]).profile_id == before[i].profile_id
}

/// A delivery keeps every stored profile at its place.
pub proof fn lemma_upsert_keeps(rows: Seq<ProfileView>, new: ProfileView)
    ensures
        all_kept(rows, profile_upserted(rows, new)),
{
    lemma_first_index(rows, crate::catalogue::is_profile(new.profile_id));
}

/// The catalogue row that a profile of the seeker service makes when it
/// is stored at the second `now`, in a sweep that started at the second
/// `synced_at`.
pub open spec fn synced_profile(profile: ApiProfile, synced_at: i64, now: i64) -> ProfileView {
    ProfileView {
        profile_id: profile.id@,
        user_id: profile.user_id@,
        kind: profile.kind@,
        metadata: Some(profile.metadata@),
        beckn_structure: Some(beckn_structure(profile.id@, profile.metadata@)),
        hash: profile_hash(
            profile.id@,
            profile.user_id@,
            profile.kind@,
            profile.metadata@,
            profile.created_at@,
            profile.updated_at@,
        ),
        last_synced_at: synced_at,
        updated_at: now,
    }
}

/// The profiles after the profiles of a page were stored, one after the
/// other.
pub open spec fn page_stored(
    rows: Seq<ProfileView>,
    data: Seq<ApiProfile>,
    started: i64,
    now: i64,
) -> Seq<ProfileView>
    decreases data.len(),
{
    if data.len() == 0 {
        rows
    } else {
        profile_upserted(
            page_stored(rows, data.drop_last(), started, now),
            synced_profile(data.last(), started, now),
        )
    }
}

/// What becomes of the page `page` among the answers of the service: a
/// page without an answer, or with a failed one, could not be fetched; a
/// page without profiles is empty; the profiles of any other are stored.
pub open spec fn outcome_of(pages: Seq<PageResult>, page: u32) -> PageOutcome {
    if 1 <= page && page - 1 < pages.len() {
        match pages[page - 1] {
            PageResult::Failed => PageOutcome::FetchFailed,
            PageResult::Page { data, total_count } => if data@.len() == 0 {
                PageOutcome::Empty
            } else {
                PageOutcome::Stored { total_count }
            },
        }
    } else {
        PageOutcome::FetchFailed
    }
}

/// The profiles after the page `page` among the answers of the service
/// was dealt with.
pub open spec fn rows_with_page(
    rows: Seq<ProfileView>,
    pages: Seq<PageResult>,
    page: u32,
    started: i64,
    now: i64,
) -> Seq<ProfileView> {
    if 1 <= page && page - 1 < pages.len() {
        match pages[page - 1] {
            PageResult::Failed => rows,
            PageResult::Page { data, .. } => page_stored(rows, data@, started, now),
        }
    } else {
        rows
    }
}

/// The profiles after a sweep went on from the page `page` until it
/// stopped, and whether it was complete.
pub open spec fn swept(
    rows: Seq<ProfileView>,
    pages: Seq<PageResult>,
    page: u32,
    limit: u32,
    started: i64,
    now: i64,
) -> (Seq<ProfileView>, bool)
    decreases pages.len() + 1 - page,
{
    let stored = rows_with_page(rows, pages, page, started, now);
    match next_after(page, limit, outcome_of(pages, page)) {
        SweepNext::Fetch(next) => swept(stored, pages, next, limit, started, now),
        SweepNext::Finish { completed } => (stored, completed),
    }
}

/// The profiles after a whole sweep, and whether it was complete: the
/// pages are stored from the first on until the sweep stops, and after a
/// complete sweep the profiles that it did not see are removed.
pub open spec fn synced(
    rows: Seq<ProfileView>,
    pages: Seq<PageResult>,
    limit: u32,
    started: i64,
    now: i64,
) -> (Seq<ProfileView>, bool) {
    let (stored, completed) = swept(rows, pages, 1, limit, started, now);
    if completed {
        (stored.filter(seen_since(started)), true)
    } else {
        (stored, false)
    }
}

/// A sweep against the catalogue in memory, started at the second
/// `started`, over the pages that the service answered with: the pages
/// are stored one after the other until the sweep stops, and after a
/// complete sweep the profiles that it did not see are removed. The
/// result tells whether the sweep was complete.
///
/// After a complete sweep every profile in the catalogue was seen by it.
/// After a sweep that failed nothing was removed.
pub fn sync_profiles_in_memory(
    catalogue: &mut Profiles,
    pages: &Vec<PageResult>,
    limit: u32,
    started: i64,
    now: i64,
) -> (out: bool)
    ensures
        final(catalogue)@ == synced(old(catalogue)@, pages@, limit, started, now).0,
        out == synced(old(catalogue)@, pages@, limit, started, now).1,
        out ==> all_seen_since(final(catalogue)@, started),
        !out ==> all_kept(old(catalogue)@, final(catalogue)@),
{
    let ghost before = catalogue@;
    let ghost whole = swept(before, pages@, 1, limit, started, now);
    let mut page: u32 = 1;
    let mut completed: bool = false;
    let mut running: bool = true;
    while running
        invariant
            page >= 1,
            all_kept(before, catalogue@),
            running ==> page - 1 <= pages.len(),
            running ==> whole == swept(catalogue@, pages@, page, limit, started, now),
            !running ==> whole == (catalogue@, completed),
        decreases
                if running {
                    pages.len() + 1 - (page - 1)
                } else {
                    0
                },
    {
        let ghost at_start = catalogue@;
        let index: usize = (page - 1) as usize;
        let outcome = if index < pages.len() {
            match &pages[index] {
                PageResult::Failed => PageOutcome::FetchFailed,
                PageResult::Page { data, total_count } => {
                    if data.len() == 0 {
                        PageOutcome::Empty
                    } else {
                        let mut i: usize = 0;
                        assert(data@.take(0) =~= Seq::empty());
                        while i < data.len()
                            invariant
                                i <= data.len(),
                                all_kept(before, catalogue@),
                                catalogue@ == page_stored(
                                    at_start,
                                    data@.take(i as int),
                                    started,
                                    now,
                                ),
                            decreases data.len() - i,
                        {
                            let ghost now_rows = catalogue@;
                            let new = to_new_profile(&data[i], started);
                            proof {
                                lemma_upsert_keeps(now_rows, delivered_profile(new, now));
                                assert(delivered_profile(new, now) == synced_profile(
                                    data@[i as int],
                                    started,
                                    now,
                                ));
                                assert(data@.take(i + 1).drop_last() =~= data@.take(i as int));
                                assert(data@.take(i + 1).last() == data@[i as int]);
                            }
                            catalogue.store_profile(new, now);
                            i += 1;
                        }
                        assert(data@.take(data.len() as int) =~= data@);
                        PageOutcome::Stored { total_count: *total_count }
                    }
                },
            }
        } else {
            PageOutcome::FetchFailed
        };
        assert(outcome == outcome_of(pages@, page));
        assert(catalogue@ == rows_with_page(at_start, pages@, page, started, now));
        match after_page(page, limit, outcome) {
            SweepNext::Fetch(next) => {
                page = next;
            },
            SweepNext::Finish { completed: done } => {
                completed = done;
                running = false;
            },
        }
    }
    if sweep_end(completed).delete_stale {
        proof {
            lemma_profiles_fresh_after_sweep(catalogue@, started);
        }
        catalogue.delete_stale_profiles(started);
    }
    completed
}

/// The page and the page size that a request for profiles states.
#[derive(Debug, Clone, Copy, PartialEq, Eq, Structural)]
pub struct PageRequest {
    pub page: Option<u32>,
    pub limit: Option<u32>,
}

/// The number of a whole-number value that is not negative and within
/// `u64`, cut to its low 32 bits.
pub open spec fn low_u32(value: Option<JsonValue>) -> Option<u32> {
    match value {
        Some(JsonValue::Int(n)) => if 0 <= n <= u64::MAX {
            Some((n % 0x1_0000_0000) as u32)
        } else {
            None
        },
        _ => None,
    }
}

/// The page and the page size that a message states.
pub open spec fn requested_page(message: JsonValue) -> PageRequest {
    PageRequest {
        page: low_u32(
            match message.field("pagination"@) {
                Some(p) => p.field("page"@),
                None => None,
            },
        ),
        limit: low_u32(
            match message.field("pagination"@) {
                Some(p) => p.field("limit"@),
                None => None,
            },
        ),
    }
}

/// The number of `value`, cut to its low 32 bits.
fn low_u32_in(value: Option<&Json>) -> (out: Option<u32>)
    ensures
        out == low_u32(doc_view(value)),
{
    match value {
        Some(v) => match v.as_u64() {
            Some(n) => Some((n % 0x1_0000_0000) as u32),
            None => None,
        },
        None => None,
    }
}

/// The page and the page size that the message `message` states.
pub fn extract_pagination(message: &Json) -> (out: PageRequest)
    ensures
        out == requested_page(message@),
{
    let pagination = message.get("pagination");
    let (page, limit) = match pagination {
        Some(p) => (p.get("page"), p.get("limit")),
        None => (None, None),
    };
    PageRequest { page: low_u32_in(page), limit: low_u32_in(limit) }
}

/// The window of the profiles to read for a request: the page size, and
/// the number of profiles to skip; page and page size count as one where
/// they are zero, and the first page of ten where they are not stated.
pub fn profile_window(request: &PageRequest) -> (out: (u64, u64))
    ensures
        out.0 == effective(request.limit, 10),
        out.1 == (effective(request.page, 1) - 1) * effective(request.limit, 10),
{
    let page: u64 = match request.page {
        Some(p) => if p == 0 {
            1
        } else {
            p as u64
        },
        None => 1,
    };
    let limit: u64 = match request.limit {
        Some(l) => if l == 0 {
            1
        } else {
            l as u64
        },
        None => 10,
    };
    let a: u64 = page - 1;
    assert(0 <= a * limit <= 0xffff_ffff * 0xffff_ffff) by (nonlinear_arith)
        requires
            0 <= a <= 0xffff_ffff,
            0 <= limit <= 0xffff_ffff,
    ;
    (limit, a * limit)
}

/// A stated number, at least one; `fallback` where none is stated.
pub open spec fn effective(stated: Option<u32>, fallback: int) -> int {
    match stated {
        Some(n) => if n == 0 {
            1
        } else {
            n as int
        },
        None => fallback,
    }
}

/// The catalogue of profiles as it is sent: one provider, this
/// participant, with the profiles as its items, and the pagination.
pub open spec fn profiles_catalog(
    items: Seq<JsonValue>,
    config: AppConfig,
    page: u32,
    limit: u32,
    total: i64,
) -> JsonValue {
    JsonValue::Object(
        Map::empty().insert(
            "catalog"@,
            object1(
                "providers"@,
                JsonValue::Array(
                    seq![
                        JsonValue::Object(
                            Map::empty().insert("id"@, JsonValue::Str(config.bpp.id@)).insert(
                                "descriptor"@,
                                object1("name"@, JsonValue::Str(config.bpp.catalog_name@)),
                            ).insert("items"@, JsonValue::Array(items)),
                        ),
                    ],
                ),
            ),
        ).insert(
            "pagination"@,
            JsonValue::Object(
                Map::empty().insert("page"@, JsonValue::Int(page as int)).insert(
                    "limit"@,
                    JsonValue::Int(limit as int),
                ).insert("total"@, JsonValue::Int(total as int)),
            ),
        ),
    )
}

/// The catalogue of profiles as it is sent.
pub fn build_profiles_catalog(items: Vec<Json>, config: &AppConfig, page: u32, limit: u32, total: i64) -> (out:
    Json)
    ensures
        out@ == profiles_catalog(values_of(items@), *config, page, limit, total),
{
    let descriptor = Json::empty_object().with_field(
        "name",
        Json::Str(config.bpp.catalog_name.clone()),
    );
    let provider = Json::empty_object().with_field("id", Json::Str(config.bpp.id.clone())).with_field(
        "descriptor",
        descriptor,
    ).with_field("items", Json::array(items));
    let mut providers: Vec<Json> = Vec::new();
    providers.push(provider);
    let ghost provider_value = providers@[0]@;
    let listed = Json::array(providers);
    assert(listed@->Array_0 =~= seq![provider_value]);
    let catalog = Json::empty_object().with_field("providers", listed);
    let pagination = Json::empty_object().with_field("page", Json::Int(page as i64)).with_field(
        "limit",
        Json::Int(limit as i64),
    ).with_field("total", Json::Int(total));
    Json::empty_object().with_field("catalog", catalog).with_field("pagination", pagination)
}

} // verus!
