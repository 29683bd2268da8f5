//! Match scores of jobs and profiles: the record of them, the hashes
//! that tell whether a score is still fresh, and the work lists of a
//! scoring pass.

use crate::batching::{batch_views, chunk_vec, chunks_of};
use crate::catalogue::{blob_view, copy_blob};
use crate::json::{Json, JsonValue};
use crate::seqs::{first_index, lemma_filter_push, lemma_first_index, lemma_first_index_is};
use crate::text::same_text;
use vstd::prelude::*;

verus! {

/// A job as the scoring reads it.
pub struct JobRow {
    pub id: String,
    pub hash: String,
    pub metadata: Option<Json>,
    pub beckn_structure: Option<Json>,
}

/// A profile as the scoring reads it.
pub struct ProfileRow {
    pub id: String,
    pub hash: String,
    pub metadata: Option<Json>,
    pub beckn_structure: Option<Json>,
}

/// A job by identifier and content hash.
#[derive(Debug, Clone)]
pub struct JobLiteRow {
    pub id: String,
    pub hash: String,
}

/// A profile by identifier and content hash.
#[derive(Debug, Clone)]
pub struct ProfileLiteRow {
    pub id: String,
    pub hash: String,
}

/// A match whose hashes differ from the current ones.
#[derive(Debug, Clone)]
pub struct StaleMatchRow {
    pub job_id: String,
    pub profile_id: String,
    pub job_hash: String,
    pub profile_hash: String,
    pub current_job_hash: String,
    pub current_profile_hash: String,
}

/// Something with an identifier and a content hash, as a mathematical
/// value.
pub struct Hashed {
    pub id: Seq<char>,
    pub hash: Seq<char>,
}

impl View for JobLiteRow {
    type V = Hashed;

    open spec fn view(&self) -> Hashed {
        Hashed { id: self.id@, hash: self.hash@ }
    }
}

impl View for ProfileLiteRow {
    type V = Hashed;

    open spec fn view(&self) -> Hashed {
        Hashed { id: self.id@, hash: self.hash@ }
    }
}

/// A stale match, as a mathematical value.
pub struct StaleView {
    pub job_id: Seq<char>,
    pub profile_id: Seq<char>,
    pub job_hash: Seq<char>,
    pub profile_hash: Seq<char>,
    pub current_job_hash: Seq<char>,
    pub current_profile_hash: Seq<char>,
}

impl View for StaleMatchRow {
    type V = StaleView;

    open spec fn view(&self) -> StaleView {
        StaleView {
            job_id: self.job_id@,
            profile_id: self.profile_id@,
            job_hash: self.job_hash@,
            profile_hash: self.profile_hash@,
            current_job_hash: self.current_job_hash@,
            current_profile_hash: self.current_profile_hash@,
        }
    }
}

/// The score of a job for a profile, with the hashes that were current
/// when it was computed.
pub struct MatchRow {
    pub job_id: String,
    pub profile_id: String,
    pub job_hash: String,
    pub profile_hash: String,
    pub match_score: i16,
    pub score_breakdown: Option<Json>,
    pub computed_at: i64,
    pub updated_at: i64,
}

/// A match, as a mathematical value.
pub struct MatchView {
    pub job_id: Seq<char>,
    pub profile_id: Seq<char>,
    pub job_hash: Seq<char>,
    pub profile_hash: Seq<char>,
    pub match_score: i16,
    pub score_breakdown: Option<JsonValue>,
    pub computed_at: i64,
    pub updated_at: i64,
}

impl View for MatchRow {
    type V = MatchView;

    open spec fn view(&self) -> MatchView {
        MatchView {
            job_id: self.job_id@,
            profile_id: self.profile_id@,
            job_hash: self.job_hash@,
            profile_hash: self.profile_hash@,
            match_score: self.match_score,
            score_breakdown: blob_view(self.score_breakdown),
            computed_at: self.computed_at,
            updated_at: self.updated_at,
        }
    }
}

/// The matches in `rows`, in order.
pub open spec fn matches_of(rows: Seq<MatchRow>) -> Seq<MatchView> {
    Seq::new(rows.len(), |i: int| rows[i]@)
}

/// The jobs in `rows`, in order.
pub open spec fn lite_jobs_of(rows: Seq<JobLiteRow>) -> Seq<Hashed> {
    Seq::new(rows.len(), |i: int| rows[i]@)
}

/// The profiles in `rows`, in order.
pub open spec fn lite_profiles_of(rows: Seq<ProfileLiteRow>) -> Seq<Hashed> {
    Seq::new(rows.len(), |i: int| rows[i]@)
}

/// The stale matches in `rows`, in order.
pub open spec fn stale_of(rows: Seq<StaleMatchRow>) -> Seq<StaleView> {
    Seq::new(rows.len(), |i: int| rows[i]@)
}

/// Whether a match is fresh: its hashes are the current hashes of its job
/// and of its profile.
pub open spec fn is_fresh(m: MatchView, job_hash: Seq<char>, profile_hash: Seq<char>) -> bool {
    m.job_hash == job_hash && m.profile_hash == profile_hash
}

/// Whether the match `m` is fresh, the current hashes being `job_hash`
/// and `profile_hash`.
pub fn match_is_fresh(m: &MatchRow, job_hash: &str, profile_hash: &str) -> (out: bool)
    ensures
        out == is_fresh(m@, job_hash@, profile_hash@),
        out <==> m@.job_hash == job_hash@ && m@.profile_hash == profile_hash@,
{
    same_text(m.job_hash.as_str(), job_hash) && same_text(m.profile_hash.as_str(), profile_hash)
}

/// The test that a match is of the job `job_id` and the profile
/// `profile_id`.
pub open spec fn is_pair(job_id: Seq<char>, profile_id: Seq<char>) -> spec_fn(MatchView) -> bool {
    |m: MatchView| m.job_id == job_id && m.profile_id == profile_id
}

/// The test that a row has the identifier `id`.
pub open spec fn has_ident(id: Seq<char>) -> spec_fn(Hashed) -> bool {
    |h: Hashed| h.id == id
}

/// The matches after a score was recorded at the second `now`: the match
/// of the pair takes the hashes, the score and the breakdown, and keeps
/// the time at which it was first computed; a pair without a match gets
/// one.
pub open spec fn score_recorded(rows: Seq<MatchView>, new: MatchView) -> Seq<MatchView> {
    let i = first_index(rows, is_pair(new.job_id, new.profile_id));
    if 0 <= i < rows.len() {
        rows.update(i, MatchView { computed_at: rows[i].computed_at, ..new })
    } else {
        rows.push(new)
    }
}

/// Whether no two matches are of the same pair.
pub open spec fn pairs_unique(rows: Seq<MatchView>) -> bool {
    forall|i: int, j: int|
        0 <= i < j < rows.len() ==> !((#[trigger] rows[i]).job_id == (#[trigger] rows[j]).job_id
            && rows[i].profile_id == rows[j].profile_id)
}

/// Whether a pair has a match.
pub open spec fn is_scored(rows: Seq<MatchView>, job_id: Seq<char>, profile_id: Seq<char>) -> bool {
    first_index(rows, is_pair(job_id, profile_id)) < rows.len()
}

/// The record of matches.
pub struct Matches {
    pub rows: Vec<MatchRow>,
}

impl View for Matches {
    type V = Seq<MatchView>;

    open spec fn view(&self) -> Seq<MatchView> {
        matches_of(self.rows@)
    }
}

impl Matches {
    /// A record without matches.
    pub fn new() -> (out: Matches)
        ensures
            out@ == Seq::<MatchView>::empty(),
    {
        let out = Matches { rows: Vec::new() };
        assert(out@ =~= Seq::<MatchView>::empty());
        out
    }

    /// The place of the match of the pair.
    pub fn find(&self, job_id: &str, profile_id: &str) -> (out: usize)
        ensures
            out == first_index(self@, is_pair(job_id@, profile_id@)),
            out <= self.rows.len(),
    {
        let mut i: usize = 0;
        while i < self.rows.len()
            invariant
                i <= self.rows.len(),
                forall|k: int| 0 <= k < i ==> !is_pair(job_id@, profile_id@)(#[trigger] self@[k]),
            decreases self.rows.len() - i,
        {
            if same_text(self.rows[i].job_id.as_str(), job_id) && same_text(
                self.rows[i].profile_id.as_str(),
                profile_id,
            ) {
                proof {
                    lemma_first_index_is(self@, is_pair(job_id@, profile_id@), i as int);
                }
                return i;
            }
            i += 1;
        }
        proof {
            lemma_first_index_is(self@, is_pair(job_id@, profile_id@), i as int);
        }
        i
    }

    /// Records the score of a pair, computed at the second `now` from the
    /// job and the profile with the given hashes.
    pub fn upsert_match_score(
        &mut self,
        job_id: &str,
        profile_id: &str,
        job_hash: &str,
        profile_hash: &str,
        match_score: i16,
        score_breakdown: Option<Json>,
        now: i64,
    )
        ensures
            final(self)@ == score_recorded(
                old(self)@,
                MatchView {
                    job_id: job_id@,
                    profile_id: profile_id@,
                    job_hash: job_hash@,
                    profile_hash: profile_hash@,
                    match_score,
                    score_breakdown: blob_view(score_breakdown),
                    computed_at: now,
                    updated_at: now,
                },
            ),
    {
        let ghost before = self@;
        let i = self.find(job_id, profile_id);
        let found: bool = i < self.rows.len();
        let computed_at: i64 = if found {
            let old_row = self.rows.remove(i);
            old_row.computed_at
        } else {
            now
        };
        let row = MatchRow {
            job_id: job_id.to_owned(),
            profile_id: profile_id.to_owned(),
            job_hash: job_hash.to_owned(),
            profile_hash: profile_hash.to_owned(),
            match_score,
            score_breakdown,
            computed_at,
            updated_at: now,
        };
        if found {
            self.rows.insert(i, row);
            assert(self@ =~= before.update(i as int, row@));
        } else {
            self.rows.push(row);
            assert(self@ =~= before.push(row@));
        }
    }
}

/// Recording a score leaves the match of the pair fresh for the hashes
/// it was computed from, leaves every other match as it is, and keeps
/// the pairs unique.
pub proof fn lemma_recorded_is_fresh(rows: Seq<MatchView>, new: MatchView)
    ensures
        is_scored(score_recorded(rows, new), new.job_id, new.profile_id),
        is_fresh(
            score_recorded(rows, new)[first_index(
                score_recorded(rows, new),
                is_pair(new.job_id, new.profile_id),
            )],
            new.job_hash,
            new.profile_hash,
        ),
        rows.len() <= score_recorded(rows, new).len() <= rows.len() + 1,
        forall|k: int|
            0 <= k < rows.len() && !is_pair(new.job_id, new.profile_id)(#[trigger] rows[k])
                ==> score_recorded(rows, new)[k] == rows[k],
        forall|k: int|
            0 <= k < rows.len() ==> (#[trigger] score_recorded(rows, new)[k]).job_id
                == rows[k].job_id && score_recorded(rows, new)[k].profile_id == rows[k].profile_id,
        pairs_unique(rows) ==> pairs_unique(score_recorded(rows, new)),
{
    let wanted = is_pair(new.job_id, new.profile_id);
    let after = score_recorded(rows, new);
    let i = first_index(rows, wanted);
    lemma_first_index(rows, wanted);
    if 0 <= i < rows.len() {
        assert(wanted(after[i]));
        assert forall|k: int| 0 <= k < i implies !wanted(#[trigger] after[k]) by {
            assert(after[k] == rows[k]);
        }
        lemma_first_index_is(after, wanted, i);
        assert forall|k: int|
            0 <= k < rows.len() && !wanted(#[trigger] rows[k]) implies after[k] == rows[k] by {}
    } else {
        assert(after[rows.len() as int] == new);
        assert forall|k: int| 0 <= k < rows.len() implies !wanted(#[trigger] after[k]) by {
            assert(after[k] == rows[k]);
        }
        lemma_first_index_is(after, wanted, rows.len() as int);
        if pairs_unique(rows) {
            assert forall|a: int, b: int| 0 <= a < b < after.len() implies !((
            #[trigger] after[a]).job_id == (#[trigger] after[b]).job_id && after[a].profile_id
                == after[b].profile_id) by {
                if b == rows.len() {
                    assert(after[a] == rows[a]);
                    assert(!wanted(rows[a]));
                } else {
                    assert(after[a] == rows[a]);
                    assert(after[b] == rows[b]);
                }
            }
        }
    }
}

/// The test that a job, or a profile, has no match: `by_job` tells
/// which of the two is meant.
pub open spec fn is_unscored(matches: Seq<MatchView>, by_job: bool) -> spec_fn(Hashed) -> bool {
    |h: Hashed|
        forall|k: int|
            0 <= k < matches.len() ==> if by_job {
                (#[trigger] matches[k]).job_id != h.id
            } else {
                (#[trigger] matches[k]).profile_id != h.id
            }
}

/// Whether no match is of the job, or of the profile, with the
/// identifier `id`.
fn nothing_scored(matches: &Matches, id: &str, by_job: bool) -> (out: bool)
    ensures
        out == is_unscored(matches@, by_job)(Hashed { id: id@, hash: Seq::empty() }),
{
    let mut k: usize = 0;
    while k < matches.rows.len()
        invariant
            k <= matches.rows.len(),
            forall|j: int|
                0 <= j < k ==> if by_job {
                    (#[trigger] matches@[j]).job_id != id@
                } else {
                    (#[trigger] matches@[j]).profile_id != id@
                },
        decreases matches.rows.len() - k,
    {
        let same = if by_job {
            same_text(matches.rows[k].job_id.as_str(), id)
        } else {
            same_text(matches.rows[k].profile_id.as_str(), id)
        };
        if same {
            assert(matches@[k as int] == matches.rows@[k as int]@);
            return false;
        }
        k += 1;
    }
    true
}

/// The jobs without a match, in order.
pub fn fetch_new_jobs(jobs: &Vec<JobLiteRow>, matches: &Matches) -> (out: Vec<JobLiteRow>)
    ensures
        lite_jobs_of(out@) == lite_jobs_of(jobs@).filter(is_unscored(matches@, true)),
{
    let ghost all = lite_jobs_of(jobs@);
    let ghost keep = is_unscored(matches@, true);
    let mut out: Vec<JobLiteRow> = Vec::new();
    let mut i: usize = 0;
    assert(all.take(0) =~= Seq::empty());
    assert(lite_jobs_of(out@) =~= all.take(0).filter(keep));
    while i < jobs.len()
        invariant
            i <= jobs.len(),
            all == lite_jobs_of(jobs@),
            keep == is_unscored(matches@, true),
            lite_jobs_of(out@) == all.take(i as int).filter(keep),
        decreases jobs.len() - i,
    {
        let ghost before = lite_jobs_of(out@);
        proof {
            assert(all.take(i + 1) =~= all.take(i as int).push(jobs@[i as int]@));
            lemma_filter_push(all.take(i as int), jobs@[i as int]@, keep);
        }
        if nothing_scored(matches, jobs[i].id.as_str(), true) {
            out.push(JobLiteRow { id: jobs[i].id.clone(), hash: jobs[i].hash.clone() });
            assert(lite_jobs_of(out@) =~= before.push(jobs@[i as int]@));
        }
        i += 1;
    }
    assert(all.take(jobs.len() as int) =~= all);
    out
}

/// The profiles without a match, in order.
pub fn fetch_new_profiles(profiles: &Vec<ProfileLiteRow>, matches: &Matches) -> (out: Vec<
    ProfileLiteRow,
>)
    ensures
        lite_profiles_of(out@) == lite_profiles_of(profiles@).filter(is_unscored(matches@, false)),
{
    let ghost all = lite_profiles_of(profiles@);
    let ghost keep = is_unscored(matches@, false);
    let mut out: Vec<ProfileLiteRow> = Vec::new();
    let mut i: usize = 0;
    assert(all.take(0) =~= Seq::empty());
    assert(lite_profiles_of(out@) =~= all.take(0).filter(keep));
    while i < profiles.len()
        invariant
            i <= profiles.len(),
            all == lite_profiles_of(profiles@),
            keep == is_unscored(matches@, false),
            lite_profiles_of(out@) == all.take(i as int).filter(keep),
        decreases profiles.len() - i,
    {
        let ghost before = lite_profiles_of(out@);
        proof {
            assert(all.take(i + 1) =~= all.take(i as int).push(profiles@[i as int]@));
            lemma_filter_push(all.take(i as int), profiles@[i as int]@, keep);
        }
        if nothing_scored(matches, profiles[i].id.as_str(), false) {
            out.push(
                ProfileLiteRow { id: profiles[i].id.clone(), hash: profiles[i].hash.clone() },
            );
            assert(lite_profiles_of(out@) =~= before.push(profiles@[i as int]@));
        }
        i += 1;
    }
    assert(all.take(profiles.len() as int) =~= all);
    out
}

/// The current hash of the row with the identifier `id`, if there is
/// one.
pub open spec fn current_hash(rows: Seq<Hashed>, id: Seq<char>) -> Option<Seq<char>> {
    let i = first_index(rows, has_ident(id));
    if 0 <= i < rows.len() {
        Some(rows[i].hash)
    } else {
        None
    }
}

/// What a match is listed as where it is stale: where its job and its
/// profile are both there, and one of its hashes is not the current one.
pub open spec fn stale_entry(m: MatchView, jobs: Seq<Hashed>, profiles: Seq<Hashed>) -> Option<
    StaleView,
> {
    match (current_hash(jobs, m.job_id), current_hash(profiles, m.profile_id)) {
        (Some(job_hash), Some(profile_hash)) => if is_fresh(m, job_hash, profile_hash) {
            None
        } else {
            Some(
                StaleView {
                    job_id: m.job_id,
                    profile_id: m.profile_id,
                    job_hash: m.job_hash,
                    profile_hash: m.profile_hash,
                    current_job_hash: job_hash,
                    current_profile_hash: profile_hash,
                },
            )
        },
        _ => None,
    }
}

/// The stale matches among the first `n` matches, in order.
pub open spec fn stale_among(
    matches: Seq<MatchView>,
    jobs: Seq<Hashed>,
    profiles: Seq<Hashed>,
    n: int,
) -> Seq<StaleView>
    decreases n,
{
    if n <= 0 || n > matches.len() {
        Seq::empty()
    } else {
        let before = stale_among(matches, jobs, profiles, n - 1);
        match stale_entry(matches[n - 1], jobs, profiles) {
            Some(s) => before.push(s),
            None => before,
        }
    }
}

/// The place of the first job with the identifier `id`.
fn find_job(jobs: &Vec<JobLiteRow>, id: &str) -> (out: usize)
    ensures
        out == first_index(lite_jobs_of(jobs@), has_ident(id@)),
        out <= jobs.len(),
{
    let mut i: usize = 0;
    while i < jobs.len()
        invariant
            i <= jobs.len(),
            forall|k: int| 0 <= k < i ==> !has_ident(id@)(#[trigger] lite_jobs_of(jobs@)[k]),
        decreases jobs.len() - i,
    {
        if same_text(jobs[i].id.as_str(), id) {
            proof {
                lemma_first_index_is(lite_jobs_of(jobs@), has_ident(id@), i as int);
            }
            return i;
        }
        i += 1;
    }
    proof {
        lemma_first_index_is(lite_jobs_of(jobs@), has_ident(id@), i as int);
    }
    i
}

/// The place of the first profile with the identifier `id`.
fn find_profile(profiles: &Vec<ProfileLiteRow>, id: &str) -> (out: usize)
    ensures
        out == first_index(lite_profiles_of(profiles@), has_ident(id@)),
        out <= profiles.len(),
{
    let mut i: usize = 0;
    while i < profiles.len()
        invariant
            i <= profiles.len(),
            forall|k: int|
                0 <= k < i ==> !has_ident(id@)(#[trigger] lite_profiles_of(profiles@)[k]),
        decreases profiles.len() - i,
    {
        if same_text(profiles[i].id.as_str(), id) {
            proof {
                lemma_first_index_is(lite_profiles_of(profiles@), has_ident(id@), i as int);
            }
            return i;
        }
        i += 1;
    }
    proof {
        lemma_first_index_is(lite_profiles_of(profiles@), has_ident(id@), i as int);
    }
    i
}

/// The stale matches: those whose job and profile are both there and
/// whose hashes are not both the current ones; in the order of the
/// matches.
pub fn fetch_stale_matches(
    matches: &Matches,
    jobs: &Vec<JobLiteRow>,
    profiles: &Vec<ProfileLiteRow>,
) -> (out: Vec<StaleMatchRow>)
    ensures
        stale_of(out@) == stale_among(
            matches@,
            lite_jobs_of(jobs@),
            lite_profiles_of(profiles@),
            matches@.len() as int,
        ),
{
    let ghost js = lite_jobs_of(jobs@);
    let ghost ps = lite_profiles_of(profiles@);
    let mut out: Vec<StaleMatchRow> = Vec::new();
    let mut i: usize = 0;
    assert(stale_of(out@) =~= stale_among(matches@, js, ps, 0));
    while i < matches.rows.len()
        invariant
            i <= matches.rows.len(),
            js == lite_jobs_of(jobs@),
            ps == lite_profiles_of(profiles@),
            stale_of(out@) == stale_among(matches@, js, ps, i as int),
        decreases matches.rows.len() - i,
    {
        let m = &matches.rows[i];
        let ghost before = stale_of(out@);
        assert(matches@[i as int] == m@);
        let j = find_job(jobs, m.job_id.as_str());
        let p = find_profile(profiles, m.profile_id.as_str());
        if j < jobs.len() && p < profiles.len() {
            assert(js[j as int] == jobs@[j as int]@);
            assert(ps[p as int] == profiles@[p as int]@);
            if !match_is_fresh(m, jobs[j].hash.as_str(), profiles[p].hash.as_str()) {
                out.push(
                    StaleMatchRow {
                        job_id: m.job_id.clone(),
                        profile_id: m.profile_id.clone(),
                        job_hash: m.job_hash.clone(),
                        profile_hash: m.profile_hash.clone(),
                        current_job_hash: jobs[j].hash.clone(),
                        current_profile_hash: profiles[p].hash.clone(),
                    },
                );
                assert(stale_of(out@) =~= before.push(stale_entry(m@, js, ps)->0));
            }
        }
        i += 1;
    }
    out
}

/// A match is listed as stale exactly where its job and its profile are
/// there and it is not fresh for their current hashes.
pub proof fn lemma_stale_iff_not_fresh(m: MatchView, jobs: Seq<Hashed>, profiles: Seq<Hashed>)
    requires
        current_hash(jobs, m.job_id) is Some,
        current_hash(profiles, m.profile_id) is Some,
    ensures
        stale_entry(m, jobs, profiles) is None <==> is_fresh(
            m,
            current_hash(jobs, m.job_id)->0,
            current_hash(profiles, m.profile_id)->0,
        ),
        stale_entry(m, jobs, profiles) is None <==> (m.job_hash == current_hash(
            jobs,
            m.job_id,
        )->0 && m.profile_hash == current_hash(profiles, m.profile_id)->0),
{
}

/// A pair of a job and a profile, to be scored.
#[derive(Debug, Clone)]
pub struct Pair {
    pub job_id: String,
    pub profile_id: String,
}

/// A pair, as a mathematical value.
pub struct PairView {
    pub job_id: Seq<char>,
    pub profile_id: Seq<char>,
}

impl View for Pair {
    type V = PairView;

    open spec fn view(&self) -> PairView {
        PairView { job_id: self.job_id@, profile_id: self.profile_id@ }
    }
}

/// The pairs in `pairs`, in order.
pub open spec fn pairs_of(pairs: Seq<Pair>) -> Seq<PairView> {
    Seq::new(pairs.len(), |i: int| pairs[i]@)
}

/// The pairs of one job with each of the profiles, in the order of the
/// profiles.
pub open spec fn job_with_each(job: Seq<char>, profiles: Seq<Hashed>) -> Seq<PairView> {
    Seq::new(profiles.len(), |k: int| PairView { job_id: job, profile_id: profiles[k].id })
}

/// The pairs of each of the jobs with each of the profiles: job by job.
pub open spec fn jobs_with_profiles(jobs: Seq<Hashed>, profiles: Seq<Hashed>) -> Seq<PairView>
    decreases jobs.len(),
{
    if jobs.len() == 0 {
        Seq::empty()
    } else {
        jobs_with_profiles(jobs.drop_last(), profiles) + job_with_each(jobs.last().id, profiles)
    }
}

/// The pairs of one profile with each of the jobs, in the order of the
/// jobs.
pub open spec fn profile_with_each(profile: Seq<char>, jobs: Seq<Hashed>) -> Seq<PairView> {
    Seq::new(jobs.len(), |k: int| PairView { job_id: jobs[k].id, profile_id: profile })
}

/// The pairs of each of the profiles with each of the jobs: profile by
/// profile.
pub open spec fn profiles_with_jobs(profiles: Seq<Hashed>, jobs: Seq<Hashed>) -> Seq<PairView>
    decreases profiles.len(),
{
    if profiles.len() == 0 {
        Seq::empty()
    } else {
        profiles_with_jobs(profiles.drop_last(), jobs) + profile_with_each(
            profiles.last().id,
            jobs,
        )
    }
}

/// The pairs to score for new jobs: each new job with each profile.
pub fn pairs_for_new_jobs(new_jobs: &Vec<JobLiteRow>, profiles: &Vec<ProfileLiteRow>) -> (out: Vec<
    Pair,
>)
    ensures
        pairs_of(out@) == jobs_with_profiles(lite_jobs_of(new_jobs@), lite_profiles_of(profiles@)),
{
    let ghost js = lite_jobs_of(new_jobs@);
    let ghost ps = lite_profiles_of(profiles@);
    let mut out: Vec<Pair> = Vec::new();
    let mut i: usize = 0;
    assert(js.take(0) =~= Seq::empty());
    assert(pairs_of(out@) =~= jobs_with_profiles(js.take(0), ps));
    while i < new_jobs.len()
        invariant
            i <= new_jobs.len(),
            js == lite_jobs_of(new_jobs@),
            ps == lite_profiles_of(profiles@),
            pairs_of(out@) == jobs_with_profiles(js.take(i as int), ps),
        decreases new_jobs.len() - i,
    {
        let ghost start = pairs_of(out@);
        assert(js.take(i + 1).drop_last() =~= js.take(i as int));
        assert(js.take(i + 1).last() == new_jobs@[i as int]@);
        let mut k: usize = 0;
        while k < profiles.len()
            invariant
                k <= profiles.len(),
                i < new_jobs.len(),
                ps == lite_profiles_of(profiles@),
                pairs_of(out@) == start + job_with_each(new_jobs@[i as int].id@, ps).take(k as int),
            decreases profiles.len() - k,
        {
            let ghost now = pairs_of(out@);
            out.push(Pair { job_id: new_jobs[i].id.clone(), profile_id: profiles[k].id.clone() });
            assert(pairs_of(out@) =~= now.push(
                PairView { job_id: new_jobs@[i as int].id@, profile_id: profiles@[k as int].id@ },
            ));
            assert(pairs_of(out@) =~= start + job_with_each(new_jobs@[i as int].id@, ps).take(
                k + 1,
            ));
            k += 1;
        }
        assert(job_with_each(new_jobs@[i as int].id@, ps).take(profiles.len() as int)
            =~= job_with_each(new_jobs@[i as int].id@, ps));
        i += 1;
    }
    assert(js.take(new_jobs.len() as int) =~= js);
    out
}

/// The pairs to score for new profiles: each new profile with each job.
pub fn pairs_for_new_profiles(new_profiles: &Vec<ProfileLiteRow>, jobs: &Vec<JobLiteRow>) -> (out:
    Vec<Pair>)
    ensures
        pairs_of(out@) == profiles_with_jobs(lite_profiles_of(new_profiles@), lite_jobs_of(jobs@)),
{
    let ghost ps = lite_profiles_of(new_profiles@);
    let ghost js = lite_jobs_of(jobs@);
    let mut out: Vec<Pair> = Vec::new();
    let mut i: usize = 0;
    assert(ps.take(0) =~= Seq::empty());
    assert(pairs_of(out@) =~= profiles_with_jobs(ps.take(0), js));
    while i < new_profiles.len()
        invariant
            i <= new_profiles.len(),
            ps == lite_profiles_of(new_profiles@),
            js == lite_jobs_of(jobs@),
            pairs_of(out@) == profiles_with_jobs(ps.take(i as int), js),
        decreases new_profiles.len() - i,
    {
        let ghost start = pairs_of(out@);
        assert(ps.take(i + 1).drop_last() =~= ps.take(i as int));
        assert(ps.take(i + 1).last() == new_profiles@[i as int]@);
        let mut k: usize = 0;
        while k < jobs.len()
            invariant
                k <= jobs.len(),
                i < new_profiles.len(),
                js == lite_jobs_of(jobs@),
                pairs_of(out@) == start + profile_with_each(new_profiles@[i as int].id@, js).take(
                    k as int,
                ),
            decreases jobs.len() - k,
        {
            let ghost now = pairs_of(out@);
            out.push(Pair { job_id: jobs[k].id.clone(), profile_id: new_profiles[i].id.clone() });
            assert(pairs_of(out@) =~= now.push(
                PairView { job_id: jobs@[k as int].id@, profile_id: new_profiles@[i as int].id@ },
            ));
            assert(pairs_of(out@) =~= start + profile_with_each(
                new_profiles@[i as int].id@,
                js,
            ).take(k + 1));
            k += 1;
        }
        assert(profile_with_each(new_profiles@[i as int].id@, js).take(jobs.len() as int)
            =~= profile_with_each(new_profiles@[i as int].id@, js));
        i += 1;
    }
    assert(ps.take(new_profiles.len() as int) =~= ps);
    out
}

/// The pairs to score for stale matches: each stale match's pair.
pub fn pairs_for_stale(stale: &Vec<StaleMatchRow>) -> (out: Vec<Pair>)
    ensures
        out.len() == stale.len(),
        forall|i: int|
            0 <= i < out.len() ==> (#[trigger] out@[i])@ == (PairView {
                job_id: stale@[i].job_id@,
                profile_id: stale@[i].profile_id@,
            }),
{
    let mut out: Vec<Pair> = Vec::new();
    let mut i: usize = 0;
    while i < stale.len()
        invariant
            i <= stale.len(),
            out.len() == i,
            forall|k: int|
                0 <= k < i ==> (#[trigger] out@[k])@ == (PairView {
                    job_id: stale@[k].job_id@,
                    profile_id: stale@[k].profile_id@,
                }),
        decreases stale.len() - i,
    {
        out.push(Pair { job_id: stale[i].job_id.clone(), profile_id: stale[i].profile_id.clone() });
        i += 1;
    }
    out
}

/// The test that a pair has no match.
pub open spec fn is_missing(matches: Seq<MatchView>) -> spec_fn(PairView) -> bool {
    |p: PairView| !is_scored(matches, p.job_id, p.profile_id)
}

/// The pairs of a job and a profile that have no match: job by job.
pub fn fetch_missing_matches(
    jobs: &Vec<JobLiteRow>,
    profiles: &Vec<ProfileLiteRow>,
    matches: &Matches,
) -> (out: Vec<Pair>)
    ensures
        pairs_of(out@) == jobs_with_profiles(
            lite_jobs_of(jobs@),
            lite_profiles_of(profiles@),
        ).filter(is_missing(matches@)),
{
    let all = pairs_for_new_jobs(jobs, profiles);
    let ghost every = pairs_of(all@);
    let ghost keep = is_missing(matches@);
    let mut out: Vec<Pair> = Vec::new();
    let mut i: usize = 0;
    assert(every.take(0) =~= Seq::empty());
    assert(pairs_of(out@) =~= every.take(0).filter(keep));
    while i < all.len()
        invariant
            i <= all.len(),
            every == pairs_of(all@),
            keep == is_missing(matches@),
            pairs_of(out@) == every.take(i as int).filter(keep),
        decreases all.len() - i,
    {
        let ghost before = pairs_of(out@);
        proof {
            assert(every.take(i + 1) =~= every.take(i as int).push(all@[i as int]@));
            lemma_filter_push(every.take(i as int), all@[i as int]@, keep);
        }
        if matches.find(all[i].job_id.as_str(), all[i].profile_id.as_str()) >= matches.rows.len() {
            out.push(Pair { job_id: all[i].job_id.clone(), profile_id: all[i].profile_id.clone() });
            assert(pairs_of(out@) =~= before.push(all@[i as int]@));
        }
        i += 1;
    }
    assert(every.take(all.len() as int) =~= every);
    out
}

/// The size of the batches of a scoring pass: the configured size, and
/// one where none is configured.
pub fn effective_batch(batch: usize) -> (out: usize)
    ensures
        out == if batch == 0 {
            1
        } else {
            batch
        },
        out >= 1,
{
    if batch == 0 {
        1
    } else {
        batch
    }
}

/// The batches in which `pairs` are scored.
pub fn batches_of(pairs: Vec<Pair>, batch: usize) -> (out: Vec<Vec<Pair>>)
    ensures
        batch_views(out@) == chunks_of(
            pairs@,
            if batch == 0 {
                1
            } else {
                batch as nat
            },
        ),
{
    chunk_vec(pairs, effective_batch(batch))
}

/// The work of a scoring pass, as lists of pairs to score, each list in
/// batches, in the order in which the pass goes through them.
pub struct MatchPlan {
    /// The pairs whose match is stale.
    pub stale: Vec<Vec<Pair>>,
    /// Each job without a match, with each profile.
    pub new_jobs: Vec<Vec<Pair>>,
    /// Each profile without a match, with each job.
    pub new_profiles: Vec<Vec<Pair>>,
    /// The pairs without a match.
    pub missing: Vec<Vec<Pair>>,
}

/// The batch size of a pass, as a number of pairs.
pub open spec fn batch_size(batch: usize) -> nat {
    if batch == 0 {
        1
    } else {
        batch as nat
    }
}

/// The pairs of the stale matches, in order.
pub open spec fn stale_pairs(stale: Seq<StaleView>) -> Seq<PairView> {
    Seq::new(stale.len(), |i: int| PairView { job_id: stale[i].job_id, profile_id: stale[i].profile_id })
}

/// The batches in `batches` as sequences of pairs.
pub open spec fn pair_batches(batches: Seq<Vec<Pair>>) -> Seq<Seq<PairView>> {
    Seq::new(batches.len(), |i: int| pairs_of(batches[i]@))
}

/// The batches of `size` pairs that `pairs` fall into.
pub open spec fn batched(pairs: Seq<PairView>, size: nat) -> Seq<Seq<PairView>> {
    chunks_of(pairs, size)
}

/// The pairs in `pairs` put into batches of `batch`.
fn batch_pairs(pairs: Vec<Pair>, batch: usize) -> (out: Vec<Vec<Pair>>)
    ensures
        pair_batches(out@) == batched(pairs_of(pairs@), batch_size(batch)),
{
    let ghost all = pairs_of(pairs@);
    let out = batches_of(pairs, batch);
    proof {
        lemma_chunks_of_views(pairs@, batch_size(batch));
        assert(pair_batches(out@) =~= batched(all, batch_size(batch))) by {
            assert(batch_views(out@) == chunks_of(pairs@, batch_size(batch)));
            assert forall|i: int| 0 <= i < out@.len() implies pair_batches(out@)[i] == batched(
                all,
                batch_size(batch),
            )[i] by {
                assert(batch_views(out@)[i] == out@[i]@);
            }
        }
    }
    out
}

/// Putting pairs into batches and then taking their values gives the
/// batches of the values.
pub proof fn lemma_chunks_of_views(pairs: Seq<Pair>, size: nat)
    ensures
        chunks_of(pairs_of(pairs), size).len() == chunks_of(pairs, size).len(),
        forall|i: int|
            0 <= i < chunks_of(pairs, size).len() ==> pairs_of(#[trigger] chunks_of(pairs, size)[i])
                == chunks_of(pairs_of(pairs), size)[i],
    decreases pairs.len(),
{
    if size == 0 || pairs.len() == 0 {
    } else if pairs.len() <= size {
    } else {
        let rest = pairs.skip(size as int);
        lemma_chunks_of_views(rest, size);
        assert(pairs_of(pairs).skip(size as int) =~= pairs_of(rest));
        assert(pairs_of(pairs).take(size as int) =~= pairs_of(pairs.take(size as int)));
        let whole = chunks_of(pairs, size);
        let views = chunks_of(pairs_of(pairs), size);
        assert forall|i: int| 0 <= i < whole.len() implies pairs_of(#[trigger] whole[i])
            == views[i] by {
            if i > 0 {
                assert(whole[i] == chunks_of(rest, size)[i - 1]);
                assert(views[i] == chunks_of(pairs_of(rest), size)[i - 1]);
            }
        }
    }
}

/// The stale pairs, to be scored again, in batches of `batch` pairs.
pub fn recompute_stale_matches(
    jobs: &Vec<JobLiteRow>,
    profiles: &Vec<ProfileLiteRow>,
    matches: &Matches,
    batch: usize,
) -> (out: Vec<Vec<Pair>>)
    ensures
        pair_batches(out@) == batched(
            stale_pairs(
                stale_among(
                    matches@,
                    lite_jobs_of(jobs@),
                    lite_profiles_of(profiles@),
                    matches@.len() as int,
                ),
            ),
            batch_size(batch),
        ),
{
    let stale = fetch_stale_matches(matches, jobs, profiles);
    let list = pairs_for_stale(&stale);
    assert(pairs_of(list@) =~= stale_pairs(stale_of(stale@)));
    batch_pairs(list, batch)
}

/// Each job without a match with every profile, in batches of `batch`
/// pairs.
pub fn process_new_jobs(
    jobs: &Vec<JobLiteRow>,
    profiles: &Vec<ProfileLiteRow>,
    matches: &Matches,
    batch: usize,
) -> (out: Vec<Vec<Pair>>)
    ensures
        pair_batches(out@) == batched(
            jobs_with_profiles(
                lite_jobs_of(jobs@).filter(is_unscored(matches@, true)),
                lite_profiles_of(profiles@),
            ),
            batch_size(batch),
        ),
{
    let new_jobs = fetch_new_jobs(jobs, matches);
    batch_pairs(pairs_for_new_jobs(&new_jobs, profiles), batch)
}

/// Each profile without a match with every job, in batches of `batch`
/// pairs.
pub fn process_new_profiles(
    jobs: &Vec<JobLiteRow>,
    profiles: &Vec<ProfileLiteRow>,
    matches: &Matches,
    batch: usize,
) -> (out: Vec<Vec<Pair>>)
    ensures
        pair_batches(out@) == batched(
            profiles_with_jobs(
                lite_profiles_of(profiles@).filter(is_unscored(matches@, false)),
                lite_jobs_of(jobs@),
            ),
            batch_size(batch),
        ),
{
    let new_profiles = fetch_new_profiles(profiles, matches);
    batch_pairs(pairs_for_new_profiles(&new_profiles, jobs), batch)
}

/// The pairs of a job and a profile that have no match, in batches of
/// `batch` pairs.
pub fn reconcile_missing_matches(
    jobs: &Vec<JobLiteRow>,
    profiles: &Vec<ProfileLiteRow>,
    matches: &Matches,
    batch: usize,
) -> (out: Vec<Vec<Pair>>)
    ensures
        pair_batches(out@) == batched(
            jobs_with_profiles(lite_jobs_of(jobs@), lite_profiles_of(profiles@)).filter(
                is_missing(matches@),
            ),
            batch_size(batch),
        ),
{
    batch_pairs(fetch_missing_matches(jobs, profiles, matches), batch)
}

/// The plan of a scoring pass over the jobs, the profiles and the matches
/// as they stand: the stale pairs first, then the new jobs with every
/// profile, then the new profiles with every job, then the pairs that
/// have no match; each list in batches of `batch` pairs, and of one pair
/// where no size is configured.
pub fn calculate_match_score(
    jobs: &Vec<JobLiteRow>,
    profiles: &Vec<ProfileLiteRow>,
    matches: &Matches,
    batch: usize,
) -> (out: MatchPlan)
    ensures
        pair_batches(out.stale@) == batched(
            stale_pairs(
                stale_among(
                    matches@,
                    lite_jobs_of(jobs@),
                    lite_profiles_of(profiles@),
                    matches@.len() as int,
                ),
            ),
            batch_size(batch),
        ),
        pair_batches(out.new_jobs@) == batched(
            jobs_with_profiles(
                lite_jobs_of(jobs@).filter(is_unscored(matches@, true)),
                lite_profiles_of(profiles@),
            ),
            batch_size(batch),
        ),
        pair_batches(out.new_profiles@) == batched(
            profiles_with_jobs(
                lite_profiles_of(profiles@).filter(is_unscored(matches@, false)),
                lite_jobs_of(jobs@),
            ),
            batch_size(batch),
        ),
        pair_batches(out.missing@) == batched(
            jobs_with_profiles(lite_jobs_of(jobs@), lite_profiles_of(profiles@)).filter(
                is_missing(matches@),
            ),
            batch_size(batch),
        ),
{
    MatchPlan {
        stale: recompute_stale_matches(jobs, profiles, matches, batch),
        new_jobs: process_new_jobs(jobs, profiles, matches, batch),
        new_profiles: process_new_profiles(jobs, profiles, matches, batch),
        missing: reconcile_missing_matches(jobs, profiles, matches, batch),
    }
}

/// Records the score of a job for a profile, computed at the second
/// `now` from the two as they stand: the match of the pair is fresh
/// afterwards.
pub fn compute_and_upsert(
    matches: &mut Matches,
    job: &JobRow,
    profile: &ProfileRow,
    score: i16,
    breakdown: Option<Json>,
    now: i64,
)
    ensures
        final(matches)@ == score_recorded(
            old(matches)@,
            MatchView {
                job_id: job.id@,
                profile_id: profile.id@,
                job_hash: job.hash@,
                profile_hash: profile.hash@,
                match_score: score,
                score_breakdown: blob_view(breakdown),
                computed_at: now,
                updated_at: now,
            },
        ),
{
    matches.upsert_match_score(
        job.id.as_str(),
        profile.id.as_str(),
        job.hash.as_str(),
        profile.hash.as_str(),
        score,
        breakdown,
        now,
    );
}

/// The matches after the scores in `news` were recorded, one after the
/// other.
pub open spec fn all_recorded(rows: Seq<MatchView>, news: Seq<MatchView>) -> Seq<MatchView>
    decreases news.len(),
{
    if news.len() == 0 {
        rows
    } else {
        score_recorded(all_recorded(rows, news.drop_last()), news.last())
    }
}

/// A pair that has a match keeps it when another score is recorded.
pub proof fn lemma_scored_stays(
    rows: Seq<MatchView>,
    new: MatchView,
    job_id: Seq<char>,
    profile_id: Seq<char>,
)
    requires
        is_scored(rows, job_id, profile_id),
    ensures
        is_scored(score_recorded(rows, new), job_id, profile_id),
{
    let wanted = is_pair(job_id, profile_id);
    let after = score_recorded(rows, new);
    let i = first_index(rows, wanted);
    lemma_first_index(rows, wanted);
    lemma_recorded_is_fresh(rows, new);
    assert(wanted(after[i]));
    lemma_first_index(after, wanted);
    if first_index(after, wanted) >= after.len() {
        assert(!wanted(after[i]));
    }
}

/// Reconciliation: after a score was recorded for each of the pairs in
/// `news`, every one of those pairs has a match, every pair that had a
/// match before has one still, and no pair has two.
pub proof fn lemma_reconciled(rows: Seq<MatchView>, news: Seq<MatchView>)
    ensures
        forall|k: int|
            0 <= k < news.len() ==> is_scored(
                all_recorded(rows, news),
                (#[trigger] news[k]).job_id,
                news[k].profile_id,
            ),
        forall|job_id: Seq<char>, profile_id: Seq<char>|
            is_scored(rows, job_id, profile_id) ==> #[trigger] is_scored(
                all_recorded(rows, news),
                job_id,
                profile_id,
            ),
        pairs_unique(rows) ==> pairs_unique(all_recorded(rows, news)),
    decreases news.len(),
{
    if news.len() > 0 {
        let before = all_recorded(rows, news.drop_last());
        let after = all_recorded(rows, news);
        lemma_reconciled(rows, news.drop_last());
        lemma_recorded_is_fresh(before, news.last());
        assert forall|k: int| 0 <= k < news.len() implies is_scored(
            after,
            (#[trigger] news[k]).job_id,
            news[k].profile_id,
        ) by {
            if k < news.len() - 1 {
                assert(news.drop_last()[k] == news[k]);
                lemma_scored_stays(before, news.last(), news[k].job_id, news[k].profile_id);
            }
        }
        assert forall|job_id: Seq<char>, profile_id: Seq<char>|
            is_scored(rows, job_id, profile_id) implies #[trigger] is_scored(
            after,
            job_id,
            profile_id,
        ) by {
            lemma_scored_stays(before, news.last(), job_id, profile_id);
        }
    }
}

} // verus!
