//! Drafts of applications: kept by user, job and provider, and reachable
//! by a number of their own.

use crate::callflow::{error_body, error_reply, CallReply, CallReplyView};
use crate::json::{Json, JsonValue};
use crate::models::{object1, JobRequest};
use crate::seqs::{first_index, lemma_first_index, lemma_first_index_is, lemma_filter_push};
use crate::sweep::str_view;
use crate::text::same_text;
use vstd::prelude::*;

verus! {

/// A draft on record.
pub struct DraftJobApplications {
    pub id: i32,
    pub user_id: String,
    pub job_id: String,
    pub bpp_id: String,
    pub bpp_uri: String,
    pub metadata: Option<Json>,
    pub created_at: i64,
    pub modified_at: i64,
}

/// A draft to put on record: a new one, or a change to the one with the
/// number `id`.
pub struct JobDraft {
    pub user_id: String,
    pub job_id: String,
    pub bpp_id: String,
    pub bpp_uri: String,
    pub metadata: Option<Json>,
    pub id: Option<i32>,
}

pub type UpdateJobDraft = JobDraft;

pub type CreateJobDraft = JobDraft;

/// A draft on record, as a mathematical value.
pub struct DraftView {
    pub id: i32,
    pub user_id: Seq<char>,
    pub job_id: Seq<char>,
    pub bpp_id: Seq<char>,
    pub bpp_uri: Seq<char>,
    pub metadata: Option<JsonValue>,
    pub created_at: i64,
    pub modified_at: i64,
}

/// A draft to put on record, as a mathematical value.
pub struct JobDraftView {
    pub user_id: Seq<char>,
    pub job_id: Seq<char>,
    pub bpp_id: Seq<char>,
    pub bpp_uri: Seq<char>,
    pub metadata: Option<JsonValue>,
    pub id: Option<i32>,
}

/// The value of an optional document.
pub open spec fn metadata_view(metadata: Option<Json>) -> Option<JsonValue> {
    match metadata {
        Some(m) => Some(m@),
        None => None,
    }
}

impl View for DraftJobApplications {
    type V = DraftView;

    open spec fn view(&self) -> DraftView {
        DraftView {
            id: self.id,
            user_id: self.user_id@,
            job_id: self.job_id@,
            bpp_id: self.bpp_id@,
            bpp_uri: self.bpp_uri@,
            metadata: metadata_view(self.metadata),
            created_at: self.created_at,
            modified_at: self.modified_at,
        }
    }
}

impl View for JobDraft {
    type V = JobDraftView;

    open spec fn view(&self) -> JobDraftView {
        JobDraftView {
            user_id: self.user_id@,
            job_id: self.job_id@,
            bpp_id: self.bpp_id@,
            bpp_uri: self.bpp_uri@,
            metadata: metadata_view(self.metadata),
            id: self.id,
        }
    }
}

impl DraftJobApplications {
    /// A copy of this draft.
    pub fn duplicate(&self) -> (out: DraftJobApplications)
        ensures
            out@ == self@,
    {
        DraftJobApplications {
            id: self.id,
            user_id: self.user_id.clone(),
            job_id: self.job_id.clone(),
            bpp_id: self.bpp_id.clone(),
            bpp_uri: self.bpp_uri.clone(),
            metadata: match &self.metadata {
                Some(m) => Some(m.duplicate()),
                None => None,
            },
            created_at: self.created_at,
            modified_at: self.modified_at,
        }
    }
}

/// The drafts in `rows`, in order.
pub open spec fn drafts_of(rows: Seq<DraftJobApplications>) -> Seq<DraftView> {
    Seq::new(rows.len(), |i: int| rows[i]@)
}

/// The test that a draft has the number `id`.
pub open spec fn has_number(id: i32) -> spec_fn(DraftView) -> bool {
    |d: DraftView| d.id == id
}

/// The test that a draft is of the user, for the job, with the provider.
pub open spec fn is_for(user: Seq<char>, job: Seq<char>, bpp: Seq<char>) -> spec_fn(
    DraftView,
) -> bool {
    |d: DraftView| d.user_id == user && d.job_id == job && d.bpp_id == bpp
}

/// The test that a draft is of the user and for the job asked for, as
/// far as they are asked for.
pub open spec fn draft_matches(user: Option<Seq<char>>, job: Option<Seq<char>>) -> spec_fn(
    DraftView,
) -> bool {
    |d: DraftView|
        (match user {
            Some(u) => d.user_id == u,
            None => true,
        }) && (match job {
            Some(j) => d.job_id == j,
            None => true,
        })
}

/// The drafts asked for; one at most where a job is asked for.
pub open spec fn drafts_matching(
    rows: Seq<DraftView>,
    user: Option<Seq<char>>,
    job: Option<Seq<char>>,
) -> Seq<DraftView> {
    let found = rows.filter(draft_matches(user, job));
    if job is Some && found.len() > 1 {
        found.take(1)
    } else {
        found
    }
}

/// A draft with its provider address and metadata changed at the second
/// `now`.
pub open spec fn changed(d: DraftView, data: JobDraftView, now: i64) -> DraftView {
    DraftView { bpp_uri: data.bpp_uri, metadata: data.metadata, modified_at: now, ..d }
}

/// The drafts after `data` was put on record at the second `now`, the
/// next free number being `next`:
/// - with a number, the draft with that number is changed, if there is
///   one;
/// - without, the draft of this user for this job with this provider is
///   changed, or a new draft with the number `next` is added where there
///   is none.
pub open spec fn upserted(rows: Seq<DraftView>, data: JobDraftView, now: i64, next: i32) -> Seq<
    DraftView,
> {
    match data.id {
        Some(id) => {
            let i = first_index(rows, has_number(id));
            if 0 <= i < rows.len() {
                rows.update(i, changed(rows[i], data, now))
            } else {
                rows
            }
        },
        None => {
            let i = first_index(rows, is_for(data.user_id, data.job_id, data.bpp_id));
            if 0 <= i < rows.len() {
                rows.update(i, changed(rows[i], data, now))
            } else {
                rows.push(
                    DraftView {
                        id: next,
                        user_id: data.user_id,
                        job_id: data.job_id,
                        bpp_id: data.bpp_id,
                        bpp_uri: data.bpp_uri,
                        metadata: data.metadata,
                        created_at: now,
                        modified_at: now,
                    },
                )
            }
        },
    }
}

/// Whether putting `data` on record adds a draft.
pub open spec fn adds_draft(rows: Seq<DraftView>, data: JobDraftView) -> bool {
    data.id is None && first_index(rows, is_for(data.user_id, data.job_id, data.bpp_id))
        >= rows.len()
}

/// Why a draft could not be handled.
#[derive(Debug, Clone, Copy, PartialEq, Eq, Structural)]
pub enum DraftError {
    /// No draft has the number.
    NotFound,
    /// No number is left for a new draft.
    Exhausted,
}

/// The record of drafts.
pub struct Drafts {
    pub rows: Vec<DraftJobApplications>,
    pub next_id: i32,
}

impl View for Drafts {
    type V = Seq<DraftView>;

    open spec fn view(&self) -> Seq<DraftView> {
        drafts_of(self.rows@)
    }
}

impl Drafts {
    /// A record without drafts; the first draft gets the number 1.
    pub fn new() -> (out: Drafts)
        ensures
            out@ == Seq::<DraftView>::empty(),
            out.next_id == 1,
    {
        let out = Drafts { rows: Vec::new(), next_id: 1 };
        assert(out@ =~= Seq::<DraftView>::empty());
        out
    }

    /// The place of the first draft with the number `id`.
    fn find_number(&self, id: i32) -> (out: usize)
        ensures
            out == first_index(self@, has_number(id)),
            out <= self.rows.len(),
    {
        let mut i: usize = 0;
        while i < self.rows.len()
            invariant
                i <= self.rows.len(),
                forall|k: int| 0 <= k < i ==> !has_number(id)(#[trigger] self@[k]),
            decreases self.rows.len() - i,
        {
            if self.rows[i].id == id {
                proof {
                    lemma_first_index_is(self@, has_number(id), i as int);
                }
                return i;
            }
            i += 1;
        }
        proof {
            lemma_first_index_is(self@, has_number(id), i as int);
        }
        i
    }

    /// The place of the first draft of the user, for the job, with the
    /// provider.
    fn find_for(&self, user: &str, job: &str, bpp: &str) -> (out: usize)
        ensures
            out == first_index(self@, is_for(user@, job@, bpp@)),
            out <= self.rows.len(),
    {
        let mut i: usize = 0;
        while i < self.rows.len()
            invariant
                i <= self.rows.len(),
                forall|k: int| 0 <= k < i ==> !is_for(user@, job@, bpp@)(#[trigger] self@[k]),
            decreases self.rows.len() - i,
        {
            if same_text(self.rows[i].user_id.as_str(), user) && same_text(
                self.rows[i].job_id.as_str(),
                job,
            ) && same_text(self.rows[i].bpp_id.as_str(), bpp) {
                proof {
                    lemma_first_index_is(self@, is_for(user@, job@, bpp@), i as int);
                }
                return i;
            }
            i += 1;
        }
        proof {
            lemma_first_index_is(self@, is_for(user@, job@, bpp@), i as int);
        }
        i
    }

    /// The drafts of the user and for the job asked for.
    pub fn get_draft_applications(&self, user_id: Option<&str>, job_id: Option<&str>) -> (out: Vec<
        DraftJobApplications,
    >)
        ensures
            drafts_of(out@) == drafts_matching(self@, str_view(user_id), str_view(job_id)),
    {
        let ghost wanted = draft_matches(str_view(user_id), str_view(job_id));
        let ghost all = self@;
        let mut out: Vec<DraftJobApplications> = Vec::new();
        let mut i: usize = 0;
        assert(all.take(0) =~= Seq::empty());
        assert(drafts_of(out@) =~= all.take(0).filter(wanted));
        while i < self.rows.len()
            invariant
                i <= self.rows.len(),
                all == self@,
                wanted == draft_matches(str_view(user_id), str_view(job_id)),
                drafts_of(out@) == all.take(i as int).filter(wanted),
            decreases self.rows.len() - i,
        {
            let row = &self.rows[i];
            let ghost before = drafts_of(out@);
            proof {
                assert(all.take(i + 1) =~= all.take(i as int).push(row@));
                lemma_filter_push(all.take(i as int), row@, wanted);
            }
            let user_ok = match user_id {
                Some(u) => same_text(row.user_id.as_str(), u),
                None => true,
            };
            let job_ok = match job_id {
                Some(j) => same_text(row.job_id.as_str(), j),
                None => true,
            };
            if user_ok && job_ok {
                out.push(row.duplicate());
                assert(drafts_of(out@) =~= before.push(row@));
            }
            i += 1;
        }
        assert(all.take(self.rows.len() as int) =~= all);
        if job_id.is_some() && out.len() > 1 {
            let ghost found = drafts_of(out@);
            out.truncate(1);
            assert(drafts_of(out@) =~= found.take(1));
        }
        out
    }

    /// Changes the draft at the place `i`.
    fn change_at(&mut self, i: usize, bpp_uri: String, metadata: Option<Json>, now: i64)
        requires
            i < old(self).rows.len(),
        ensures
            final(self).next_id == old(self).next_id,
            final(self)@ == old(self)@.update(
                i as int,
                DraftView {
                    bpp_uri: bpp_uri@,
                    metadata: metadata_view(metadata),
                    modified_at: now,
                    ..old(self)@[i as int]
                },
            ),
    {
        let ghost before = self@;
        let mut row = self.rows.remove(i);
        row.bpp_uri = bpp_uri;
        row.metadata = metadata;
        row.modified_at = now;
        self.rows.insert(i, row);
        assert(self@ =~= before.update(
            i as int,
            DraftView {
                bpp_uri: bpp_uri@,
                metadata: metadata_view(metadata),
                modified_at: now,
                ..before[i as int]
            },
        ));
    }

    /// Puts `data` on record at the second `now`. Fails, and changes
    /// nothing, where a new draft is to be added and no number is left.
    pub fn upsert_draft_application(&mut self, data: JobDraft, now: i64) -> (out: Result<
        (),
        DraftError,
    >)
        ensures
            out is Ok <==> !(adds_draft(old(self)@, data@) && old(self).next_id == i32::MAX),
            out is Err ==> out == Err::<(), DraftError>(DraftError::Exhausted) && final(self)@
                == old(self)@ && final(self).next_id == old(self).next_id,
            out is Ok ==> final(self)@ == upserted(
                old(self)@,
                data@,
                now,
                old(self).next_id,
            ) && final(self).next_id == if adds_draft(old(self)@, data@) {
                (old(self).next_id + 1) as i32
            } else {
                old(self).next_id
            },
    {
        let ghost before = self@;
        let JobDraft { user_id, job_id, bpp_id, bpp_uri, metadata, id } = data;
        match id {
            Some(id) => {
                let i = self.find_number(id);
                if i < self.rows.len() {
                    self.change_at(i, bpp_uri, metadata, now);
                }
                Ok(())
            },
            None => {
                let i = self.find_for(user_id.as_str(), job_id.as_str(), bpp_id.as_str());
                if i < self.rows.len() {
                    self.change_at(i, bpp_uri, metadata, now);
                    Ok(())
                } else if self.next_id == i32::MAX {
                    Err(DraftError::Exhausted)
                } else {
                    let id = self.next_id;
                    self.next_id = id + 1;
                    self.rows.push(
                        DraftJobApplications {
                            id,
                            user_id,
                            job_id,
                            bpp_id,
                            bpp_uri,
                            metadata,
                            created_at: now,
                            modified_at: now,
                        },
                    );
                    assert(self@ =~= upserted(before, data@, now, id));
                    Ok(())
                }
            },
        }
    }

    /// Takes the draft with the number `id` off the record. Fails, and
    /// changes nothing, where no draft has that number.
    pub fn delete_draft_application(&mut self, id: i32) -> (out: Result<(), DraftError>)
        ensures
            final(self).next_id == old(self).next_id,
            match out {
                Ok(_) => first_index(old(self)@, has_number(id)) < old(self)@.len()
                    && final(self)@ == old(self)@.remove(
                    first_index(old(self)@, has_number(id)),
                ),
                Err(e) => e == DraftError::NotFound && first_index(old(self)@, has_number(id))
                    >= old(self)@.len() && final(self)@ == old(self)@,
            },
    {
        let ghost before = self@;
        let i = self.find_number(id);
        if i < self.rows.len() {
            self.rows.remove(i);
            assert(self@ =~= before.remove(i as int));
            Ok(())
        } else {
            Err(DraftError::NotFound)
        }
    }
}

/// The reply with a message alone: `{message: ..}`.
pub open spec fn message_reply(status: u16, message: Seq<char>) -> CallReplyView {
    CallReplyView { status, body: object1("message"@, JsonValue::Str(message)) }
}

/// A draft as a document, as it is shown to a client.
pub open spec fn draft_value(d: DraftView) -> JsonValue {
    JsonValue::Object(
        Map::empty().insert("id"@, JsonValue::Int(d.id as int)).insert(
            "job_id"@,
            JsonValue::Str(d.job_id),
        ).insert("bpp_id"@, JsonValue::Str(d.bpp_id)).insert(
            "bpp_uri"@,
            JsonValue::Str(d.bpp_uri),
        ).insert(
            "metadata"@,
            match d.metadata {
                Some(m) => m,
                None => JsonValue::Null,
            },
        ).insert("created_at"@, JsonValue::Int(d.created_at as int)).insert(
            "modified_at"@,
            JsonValue::Int(d.modified_at as int),
        ),
    )
}

/// The draft `d` as a document.
pub fn draft_json(d: &DraftJobApplications) -> (out: Json)
    ensures
        out@ == draft_value(d@),
{
    let metadata = match &d.metadata {
        Some(m) => m.duplicate(),
        None => Json::Null,
    };
    Json::empty_object().with_field("id", Json::Int(d.id as i64)).with_field(
        "job_id",
        Json::Str(d.job_id.clone()),
    ).with_field("bpp_id", Json::Str(d.bpp_id.clone())).with_field(
        "bpp_uri",
        Json::Str(d.bpp_uri.clone()),
    ).with_field("metadata", metadata).with_field(
        "created_at",
        Json::Int(d.created_at),
    ).with_field("modified_at", Json::Int(d.modified_at))
}

/// The draft that a request asks to keep: of its user, for its job, with
/// its provider, with the request's message as metadata.
pub open spec fn requested_draft(request: JobRequest, id: Option<i32>) -> JobDraftView {
    JobDraftView {
        user_id: request.applicant(),
        job_id: request.job(),
        bpp_id: request.context.bpp_id@,
        bpp_uri: request.context.bpp_uri@,
        metadata: Some(request.message.value()),
        id,
    }
}

/// The draft that the request `request` asks to keep.
pub fn draft_of_request(request: &JobRequest, id: Option<i32>) -> (out: JobDraft)
    ensures
        out@ == requested_draft(*request, id),
{
    JobDraft {
        user_id: request.user_id(),
        job_id: request.job_id(),
        bpp_id: request.context.bpp_id.clone(),
        bpp_uri: request.context.bpp_uri.clone(),
        metadata: Some(request.message.to_json()),
        id,
    }
}

/// Whether no number is left for the draft that `data` would add.
pub open spec fn out_of_numbers(rows: Seq<DraftView>, data: JobDraftView, next: i32) -> bool {
    adds_draft(rows, data) && next == i32::MAX
}

/// The next free number after `data` was put on record.
pub open spec fn next_number(rows: Seq<DraftView>, data: JobDraftView, next: i32) -> i32 {
    if adds_draft(rows, data) && next < i32::MAX {
        (next + 1) as i32
    } else {
        next
    }
}

/// Keeps a draft for a request, against the record in memory. The draft
/// of the request's user for its job with its provider is replaced where
/// there is one: it takes the request's provider address and message,
/// and the time of the change, and keeps its number and the time at which
/// it was made. Where there is none, a new draft gets the next free
/// number. Fails, and changes nothing, where a new draft is to be added
/// and no number is left.
pub fn create_user_draft_application(record: &mut Drafts, request: &JobRequest, now: i64) -> (out:
    CallReply)
    ensures
        final(record).next_id == next_number(
            old(record)@,
            requested_draft(*request, None),
            old(record).next_id,
        ),
        out_of_numbers(old(record)@, requested_draft(*request, None), old(record).next_id) ==> {
            &&& final(record)@ == old(record)@
            &&& out@ == (CallReplyView {
                status: 500,
                body: error_body("Failed to save draft application"@),
            })
        },
        !out_of_numbers(old(record)@, requested_draft(*request, None), old(record).next_id) ==> {
            &&& final(record)@ == upserted(
                old(record)@,
                requested_draft(*request, None),
                now,
                old(record).next_id,
            )
            &&& out@ == message_reply(200, "Draft application saved successfully"@)
        },
{
    match record.upsert_draft_application(draft_of_request(request, None), now) {
        Ok(_) => CallReply {
            status: 200,
            body: Json::empty_object().with_field(
                "message",
                Json::text("Draft application saved successfully"),
            ),
        },
        Err(_) => error_reply(500, "Failed to save draft application"),
    }
}

/// Changes the draft with the number `draft_id` to what a request asks
/// for, against the record in memory; no draft is added, and the next
/// free number stays.
pub fn update_user_draft_application(
    record: &mut Drafts,
    draft_id: i32,
    request: &JobRequest,
    now: i64,
) -> (out: CallReply)
    ensures
        final(record)@ == upserted(
            old(record)@,
            requested_draft(*request, Some(draft_id)),
            now,
            old(record).next_id,
        ),
        final(record).next_id == old(record).next_id,
        out@ == message_reply(200, "Draft application updated successfully"@),
{
    match record.upsert_draft_application(draft_of_request(request, Some(draft_id)), now) {
        Ok(_) => CallReply {
            status: 200,
            body: Json::empty_object().with_field(
                "message",
                Json::text("Draft application updated successfully"),
            ),
        },
        Err(_) => error_reply(500, "Failed to save draft application"),
    }
}

/// Takes the draft with the number `draft_id` off the record in memory:
/// answered with no content, or with not-found where no draft has the
/// number. The next free number stays.
pub fn delete_user_draft_application(record: &mut Drafts, draft_id: i32) -> (out: CallReply)
    ensures
        final(record).next_id == old(record).next_id,
        first_index(old(record)@, has_number(draft_id)) < old(record)@.len() ==> out@.status == 204
            && out@.body == JsonValue::Null && final(record)@ == old(record)@.remove(
            first_index(old(record)@, has_number(draft_id)),
        ),
        first_index(old(record)@, has_number(draft_id)) >= old(record)@.len() ==> out@ == (
        CallReplyView { status: 404, body: error_body("Draft not found"@) }) && final(record)@
            == old(record)@,
{
    match record.delete_draft_application(draft_id) {
        Ok(_) => CallReply { status: 204, body: Json::Null },
        Err(_) => error_reply(404, "Draft not found"),
    }
}

/// Keeping a draft twice for the same user, job and provider leaves one
/// draft for them: the second request replaces what the first one put on
/// record and adds nothing.
pub proof fn lemma_draft_is_replaced(
    rows: Seq<DraftView>,
    first: JobDraftView,
    second: JobDraftView,
    t1: i64,
    t2: i64,
    n1: i32,
    n2: i32,
)
    requires
        first.id is None,
        second.id is None,
        first.user_id == second.user_id,
        first.job_id == second.job_id,
        first.bpp_id == second.bpp_id,
    ensures
        !adds_draft(upserted(rows, first, t1, n1), second),
        upserted(upserted(rows, first, t1, n1), second, t2, n2).len() == upserted(
            rows,
            first,
            t1,
            n1,
        ).len(),
{
    let wanted = is_for(first.user_id, first.job_id, first.bpp_id);
    let once = upserted(rows, first, t1, n1);
    let i = first_index(rows, wanted);
    lemma_first_index(rows, wanted);
    if 0 <= i < rows.len() {
        assert(wanted(once[i]));
    } else {
        assert(wanted(once[rows.len() as int]));
    }
    lemma_first_index(once, wanted);
    if first_index(once, wanted) >= once.len() {
        if 0 <= i < rows.len() {
            assert(!wanted(once[i]));
        } else {
            assert(!wanted(once[rows.len() as int]));
        }
    }
}

} // verus!
