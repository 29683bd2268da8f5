//! The catalogue of jobs and profiles: change-detected synchronisation
//! by content hash, and removal of what a sweep no longer delivered.

use crate::json::{Json, JsonValue};
use crate::seqs::{first_index, lemma_filter_push, lemma_first_index, lemma_first_index_is};
use crate::text::same_text;
use vstd::prelude::*;

verus! {

/// The value of an optional document.
pub open spec fn blob_view(blob: Option<Json>) -> Option<JsonValue> {
    match blob {
        Some(b) => Some(b@),
        None => None,
    }
}

/// A copy of an optional document.
pub fn copy_blob(blob: &Option<Json>) -> (out: Option<Json>)
    ensures
        blob_view(out) == blob_view(*blob),
{
    match blob {
        Some(b) => Some(b.duplicate()),
        None => None,
    }
}

/// A job as a sweep delivers it.
pub struct NewJob {
    pub job_id: String,
    pub provider_id: String,
    pub transaction_id: String,
    pub bpp_id: String,
    pub bpp_uri: String,
    pub metadata: Option<Json>,
    pub beckn_structure: Option<Json>,
    pub hash: String,
    pub last_synced_at: Option<i64>,
}

/// A job in the catalogue, as a mathematical value. The pair of job and
/// provider identifies it.
pub struct JobView {
    pub job_id: Seq<char>,
    pub provider_id: Seq<char>,
    pub transaction_id: Seq<char>,
    pub bpp_id: Seq<char>,
    pub bpp_uri: Seq<char>,
    pub metadata: Option<JsonValue>,
    pub beckn_structure: Option<JsonValue>,
    pub hash: Seq<char>,
    pub last_synced_at: Option<i64>,
    pub updated_at: i64,
}

/// A job in the catalogue.
pub struct StoredJob {
    pub job: NewJob,
    pub updated_at: i64,
}

impl View for StoredJob {
    type V = JobView;

    open spec fn view(&self) -> JobView {
        JobView {
            job_id: self.job.job_id@,
            provider_id: self.job.provider_id@,
            transaction_id: self.job.transaction_id@,
            bpp_id: self.job.bpp_id@,
            bpp_uri: self.job.bpp_uri@,
            metadata: blob_view(self.job.metadata),
            beckn_structure: blob_view(self.job.beckn_structure),
            hash: self.job.hash@,
            last_synced_at: self.job.last_synced_at,
            updated_at: self.updated_at,
        }
    }
}

/// A delivered job as the catalogue row that it makes at the second
/// `now`.
pub open spec fn delivered(job: NewJob, now: i64) -> JobView {
    JobView {
        job_id: job.job_id@,
        provider_id: job.provider_id@,
        transaction_id: job.transaction_id@,
        bpp_id: job.bpp_id@,
        bpp_uri: job.bpp_uri@,
        metadata: blob_view(job.metadata),
        beckn_structure: blob_view(job.beckn_structure),
        hash: job.hash@,
        last_synced_at: job.last_synced_at,
        updated_at: now,
    }
}

/// The jobs in `rows`, in order.
pub open spec fn jobs_of(rows: Seq<StoredJob>) -> Seq<JobView> {
    Seq::new(rows.len(), |i: int| rows[i]@)
}

/// The test that a job is the job `job_id` of the provider
/// `provider_id`.
pub open spec fn is_job(job_id: Seq<char>, provider_id: Seq<char>) -> spec_fn(JobView) -> bool {
    |j: JobView| j.job_id == job_id && j.provider_id == provider_id
}

/// A stored job brought up to date with a delivery: the blob, the
/// metadata and the hash change only where the hash differs; the
/// transaction, the provider and the time of the sweep are always taken
/// over.
pub open spec fn resynced(stored: JobView, new: JobView) -> JobView {
    if stored.hash != new.hash {
        new
    } else {
        JobView {
            metadata: stored.metadata,
            beckn_structure: stored.beckn_structure,
            hash: stored.hash,
            ..new
        }
    }
}

/// The jobs after one delivery: the stored job is brought up to date, or
/// the delivered one is added where it is not stored.
pub open spec fn job_upserted(rows: Seq<JobView>, new: JobView) -> Seq<JobView> {
    let i = first_index(rows, is_job(new.job_id, new.provider_id));
    if 0 <= i < rows.len() {
        rows.update(i, resynced(rows[i], new))
    } else {
        rows.push(new)
    }
}

/// The test that a job is not left over from an earlier sweep of the
/// provider `bpp_id`, the latest one being `txn_id`.
pub open spec fn is_current(bpp_id: Seq<char>, txn_id: Seq<char>) -> spec_fn(JobView) -> bool {
    |j: JobView| !(j.bpp_id == bpp_id && j.transaction_id != txn_id)
}

/// The jobs in the catalogue.
pub struct Jobs {
    pub rows: Vec<StoredJob>,
}

impl View for Jobs {
    type V = Seq<JobView>;

    open spec fn view(&self) -> Seq<JobView> {
        jobs_of(self.rows@)
    }
}

impl Jobs {
    /// A catalogue without jobs.
    pub fn new() -> (out: Jobs)
        ensures
            out@ == Seq::<JobView>::empty(),
    {
        let out = Jobs { rows: Vec::new() };
        assert(out@ =~= Seq::<JobView>::empty());
        out
    }

    /// The place of the job `job_id` of the provider `provider_id`.
    fn find(&self, job_id: &str, provider_id: &str) -> (out: usize)
        ensures
            out == first_index(self@, is_job(job_id@, provider_id@)),
            out <= self.rows.len(),
    {
        let mut i: usize = 0;
        while i < self.rows.len()
            invariant
                i <= self.rows.len(),
                forall|k: int| 0 <= k < i ==> !is_job(job_id@, provider_id@)(#[trigger] self@[k]),
            decreases self.rows.len() - i,
        {
            if same_text(self.rows[i].job.job_id.as_str(), job_id) && same_text(
                self.rows[i].job.provider_id.as_str(),
                provider_id,
            ) {
                proof {
                    lemma_first_index_is(self@, is_job(job_id@, provider_id@), i as int);
                }
                return i;
            }
            i += 1;
        }
        proof {
            lemma_first_index_is(self@, is_job(job_id@, provider_id@), i as int);
        }
        i
    }

    /// Stores one delivered job at the second `now`.
    pub fn store_job(&mut self, job: NewJob, now: i64)
        ensures
            final(self)@ == job_upserted(old(self)@, delivered(job, now)),
    {
        let ghost before = self@;
        let i = self.find(job.job_id.as_str(), job.provider_id.as_str());
        if i < self.rows.len() {
            let old_row = self.rows.remove(i);
            let changed = !same_text(old_row.job.hash.as_str(), job.hash.as_str());
            let NewJob {
                job_id,
                provider_id,
                transaction_id,
                bpp_id,
                bpp_uri,
                metadata,
                beckn_structure,
                hash,
                last_synced_at,
            } = job;
            let row = if changed {
                StoredJob {
                    job: NewJob {
                        job_id,
                        provider_id,
                        transaction_id,
                        bpp_id,
                        bpp_uri,
                        metadata,
                        beckn_structure,
                        hash,
                        last_synced_at,
                    },
                    updated_at: now,
                }
            } else {
                StoredJob {
                    job: NewJob {
                        job_id,
                        provider_id,
                        transaction_id,
                        bpp_id,
                        bpp_uri,
                        metadata: old_row.job.metadata,
                        beckn_structure: old_row.job.beckn_structure,
                        hash: old_row.job.hash,
                        last_synced_at,
                    },
                    updated_at: now,
                }
            };
            self.rows.insert(i, row);
            assert(self@ =~= before.update(
                i as int,
                resynced(before[i as int], delivered(job, now)),
            ));
        } else {
            self.rows.push(StoredJob { job, updated_at: now });
            assert(self@ =~= before.push(delivered(job, now)));
        }
    }

    /// Removes the jobs of the provider `bpp_id` that an earlier sweep
    /// than `txn_id` delivered last, and tells how many they were.
    pub fn delete_stale_jobs(&mut self, bpp_id: &str, txn_id: &str) -> (out: usize)
        ensures
            final(self)@ == old(self)@.filter(is_current(bpp_id@, txn_id@)),
            out == old(self)@.len() - final(self)@.len(),
    {
        let ghost before = self@;
        let ghost keep = is_current(bpp_id@, txn_id@);
        let mut i: usize = 0;
        let mut removed: usize = 0;
        let total: usize = self.rows.len();
        let ghost mut seen: int = 0;
        proof {
            assert(before.take(0) =~= Seq::empty());
            assert(self@.take(0) =~= before.take(0).filter(keep));
            assert(self@.skip(0) =~= before.skip(0));
        }
        while i < self.rows.len()
            invariant
                keep == is_current(bpp_id@, txn_id@),
                i <= self.rows.len(),
                0 <= seen <= before.len() == total,
                self.rows.len() - i == before.len() - seen,
                removed == seen - i,
                self@.take(i as int) == before.take(seen).filter(keep),
                self@.skip(i as int) == before.skip(seen),
            decreases self.rows.len() - i,
        {
            let ghost now = self@;
            proof {
                assert(now.skip(i as int)[0] == before.skip(seen)[0]);
                assert(before.take(seen + 1) =~= before.take(seen).push(before[seen]));
                lemma_filter_push(before.take(seen), before[seen], keep);
            }
            let stale = same_text(self.rows[i].job.bpp_id.as_str(), bpp_id) && !same_text(
                self.rows[i].job.transaction_id.as_str(),
                txn_id,
            );
            if stale {
                self.rows.remove(i);
                removed += 1;
                proof {
                    assert(self@ =~= now.remove(i as int));
                    assert(self@.take(i as int) =~= now.take(i as int));
                    assert(self@.skip(i as int) =~= now.skip(i as int).drop_first());
                    assert(before.skip(seen).drop_first() =~= before.skip(seen + 1));
                    seen = seen + 1;
                }
            } else {
                proof {
                    assert(now.take(i + 1) =~= now.take(i as int).push(now[i as int]));
                    assert(now.skip(i as int).drop_first() =~= now.skip(i + 1));
                    assert(before.skip(seen).drop_first() =~= before.skip(seen + 1));
                    seen = seen + 1;
                }
                i += 1;
            }
        }
        proof {
            assert(before.take(before.len() as int) =~= before);
            assert(self@.take(self.rows.len() as int) =~= self@);
        }
        removed
    }
}

/// After the stale jobs of a provider were pruned, no job of that
/// provider is from another sweep than the latest.
pub proof fn lemma_no_stale_jobs(rows: Seq<JobView>, bpp_id: Seq<char>, txn_id: Seq<char>)
    ensures
        forall|i: int|
            0 <= i < rows.filter(is_current(bpp_id, txn_id)).len() ==> !((#[trigger] rows.filter(
                is_current(bpp_id, txn_id),
            )[i]).bpp_id == bpp_id && rows.filter(is_current(bpp_id, txn_id))[i].transaction_id
                != txn_id),
        forall|i: int|
            0 <= i < rows.len() && is_current(bpp_id, txn_id)(#[trigger] rows[i]) ==> rows.filter(
                is_current(bpp_id, txn_id),
            ).contains(rows[i]),
{
    let keep = is_current(bpp_id, txn_id);
    let kept = rows.filter(keep);
    assert forall|i: int| 0 <= i < kept.len() implies !((#[trigger] kept[i]).bpp_id == bpp_id
        && kept[i].transaction_id != txn_id) by {
        rows.lemma_filter_pred(keep, i);
        assert(keep(kept[i]));
    }
    assert forall|i: int| 0 <= i < rows.len() && keep(#[trigger] rows[i]) implies kept.contains(
        rows[i],
    ) by {
        rows.lemma_filter_contains(keep, i);
    }
}

/// A profile as the seeker service delivers it.
pub struct NewProfile {
    pub profile_id: String,
    pub user_id: String,
    pub kind: String,
    pub metadata: Option<Json>,
    pub beckn_structure: Option<Json>,
    pub hash: String,
    pub last_synced_at: i64,
}

/// A profile in the catalogue, as a mathematical value.
pub struct ProfileView {
    pub profile_id: Seq<char>,
    pub user_id: Seq<char>,
    pub kind: Seq<char>,
    pub metadata: Option<JsonValue>,
    pub beckn_structure: Option<JsonValue>,
    pub hash: Seq<char>,
    pub last_synced_at: i64,
    pub updated_at: i64,
}

/// A profile in the catalogue.
pub struct StoredProfile {
    pub profile: NewProfile,
    pub updated_at: i64,
}

impl View for StoredProfile {
    type V = ProfileView;

    open spec fn view(&self) -> ProfileView {
        ProfileView {
            profile_id: self.profile.profile_id@,
            user_id: self.profile.user_id@,
            kind: self.profile.kind@,
            metadata: blob_view(self.profile.metadata),
            beckn_structure: blob_view(self.profile.beckn_structure),
            hash: self.profile.hash@,
            last_synced_at: self.profile.last_synced_at,
            updated_at: self.updated_at,
        }
    }
}

/// A delivered profile as the catalogue row that it makes at the second
/// `now`.
pub open spec fn delivered_profile(profile: NewProfile, now: i64) -> ProfileView {
    ProfileView {
        profile_id: profile.profile_id@,
        user_id: profile.user_id@,
        kind: profile.kind@,
        metadata: blob_view(profile.metadata),
        beckn_structure: blob_view(profile.beckn_structure),
        hash: profile.hash@,
        last_synced_at: profile.last_synced_at,
        updated_at: now,
    }
}

/// The profiles in `rows`, in order.
pub open spec fn profiles_of(rows: Seq<StoredProfile>) -> Seq<ProfileView> {
    Seq::new(rows.len(), |i: int| rows[i]@)
}

/// The test that a profile is the profile `profile_id`.
pub open spec fn is_profile(profile_id: Seq<char>) -> spec_fn(ProfileView) -> bool {
    |p: ProfileView| p.profile_id == profile_id
}

/// A stored profile brought up to date with a delivery: its columns and
/// the time of its last change move only where the hash differs; the
/// time of the sweep is always taken over.
pub open spec fn profile_resynced(stored: ProfileView, new: ProfileView) -> ProfileView {
    if stored.hash != new.hash {
        new
    } else {
        ProfileView { last_synced_at: new.last_synced_at, ..stored }
    }
}

/// The profiles after one delivery.
pub open spec fn profile_upserted(rows: Seq<ProfileView>, new: ProfileView) -> Seq<ProfileView> {
    let i = first_index(rows, is_profile(new.profile_id));
    if 0 <= i < rows.len() {
        rows.update(i, profile_resynced(rows[i], new))
    } else {
        rows.push(new)
    }
}

/// The profiles after the deliveries in `batch`, one after the other.
pub open spec fn profiles_stored(rows: Seq<ProfileView>, batch: Seq<NewProfile>, now: i64) -> Seq<
    ProfileView,
>
    decreases batch.len(),
{
    if batch.len() == 0 {
        rows
    } else {
        profile_upserted(
            profiles_stored(rows, batch.drop_last(), now),
            delivered_profile(batch.last(), now),
        )
    }
}

/// The test that a profile was seen by a sweep that started at the
/// second `since`, or later.
pub open spec fn seen_since(since: i64) -> spec_fn(ProfileView) -> bool {
    |p: ProfileView| p.last_synced_at >= since
}

/// The profiles in the catalogue.
pub struct Profiles {
    pub rows: Vec<StoredProfile>,
}

impl View for Profiles {
    type V = Seq<ProfileView>;

    open spec fn view(&self) -> Seq<ProfileView> {
        profiles_of(self.rows@)
    }
}

impl NewProfile {
    /// A copy of this profile.
    pub fn duplicate(&self) -> (out: NewProfile)
        ensures
            forall|now: i64| delivered_profile(out, now) == delivered_profile(*self, now),
    {
        let out = NewProfile {
            profile_id: self.profile_id.clone(),
            user_id: self.user_id.clone(),
            kind: self.kind.clone(),
            metadata: copy_blob(&self.metadata),
            beckn_structure: copy_blob(&self.beckn_structure),
            hash: self.hash.clone(),
            last_synced_at: self.last_synced_at,
        };
        out
    }
}

impl Profiles {
    /// A catalogue without profiles.
    pub fn new() -> (out: Profiles)
        ensures
            out@ == Seq::<ProfileView>::empty(),
    {
        let out = Profiles { rows: Vec::new() };
        assert(out@ =~= Seq::<ProfileView>::empty());
        out
    }

    /// The place of the profile `profile_id`.
    fn find(&self, profile_id: &str) -> (out: usize)
        ensures
            out == first_index(self@, is_profile(profile_id@)),
            out <= self.rows.len(),
    {
        let mut i: usize = 0;
        while i < self.rows.len()
            invariant
                i <= self.rows.len(),
                forall|k: int| 0 <= k < i ==> !is_profile(profile_id@)(#[trigger] self@[k]),
            decreases self.rows.len() - i,
        {
            if same_text(self.rows[i].profile.profile_id.as_str(), profile_id) {
                proof {
                    lemma_first_index_is(self@, is_profile(profile_id@), i as int);
                }
                return i;
            }
            i += 1;
        }
        proof {
            lemma_first_index_is(self@, is_profile(profile_id@), i as int);
        }
        i
    }

    /// Stores one delivered profile at the second `now`.
    pub fn store_profile(&mut self, profile: NewProfile, now: i64)
        ensures
            final(self)@ == profile_upserted(old(self)@, delivered_profile(profile, now)),
    {
        let ghost before = self@;
        let i = self.find(profile.profile_id.as_str());
        if i < self.rows.len() {
            let old_row = self.rows.remove(i);
            let row = if !same_text(old_row.profile.hash.as_str(), profile.hash.as_str()) {
                StoredProfile { profile, updated_at: now }
            } else {
                let StoredProfile { profile: kept, updated_at } = old_row;
                let NewProfile {
                    profile_id,
                    user_id,
                    kind,
                    metadata,
                    beckn_structure,
                    hash,
                    last_synced_at: _,
                } = kept;
                StoredProfile {
                    profile: NewProfile {
                        profile_id,
                        user_id,
                        kind,
                        metadata,
                        beckn_structure,
                        hash,
                        last_synced_at: profile.last_synced_at,
                    },
                    updated_at,
                }
            };
            self.rows.insert(i, row);
            assert(self@ =~= before.update(
                i as int,
                profile_resynced(before[i as int], delivered_profile(profile, now)),
            ));
        } else {
            self.rows.push(StoredProfile { profile, updated_at: now });
            assert(self@ =~= before.push(delivered_profile(profile, now)));
        }
    }

    /// Stores the delivered profiles of `batch` at the second `now`.
    pub fn store_profiles(&mut self, batch: &Vec<NewProfile>, now: i64)
        ensures
            final(self)@ == profiles_stored(old(self)@, batch@, now),
    {
        let ghost before = self@;
        let mut i: usize = 0;
        assert(batch@.take(0) =~= Seq::empty());
        while i < batch.len()
            invariant
                i <= batch.len(),
                self@ == profiles_stored(before, batch@.take(i as int), now),
            decreases batch.len() - i,
        {
            assert(batch@.take(i + 1).drop_last() =~= batch@.take(i as int));
            assert(batch@.take(i + 1).last() == batch@[i as int]);
            self.store_profile(batch[i].duplicate(), now);
            i += 1;
        }
        assert(batch@.take(batch.len() as int) =~= batch@);
    }

    /// Removes the profiles that no sweep has seen since the second
    /// `synced_at`, and tells how many they were.
    pub fn delete_stale_profiles(&mut self, synced_at: i64) -> (out: usize)
        ensures
            final(self)@ == old(self)@.filter(seen_since(synced_at)),
            out == old(self)@.len() - final(self)@.len(),
    {
        let ghost before = self@;
        let ghost keep = seen_since(synced_at);
        let mut i: usize = 0;
        let mut removed: usize = 0;
        let total: usize = self.rows.len();
        let ghost mut seen: int = 0;
        proof {
            assert(before.take(0) =~= Seq::empty());
            assert(self@.take(0) =~= before.take(0).filter(keep));
            assert(self@.skip(0) =~= before.skip(0));
        }
        while i < self.rows.len()
            invariant
                keep == seen_since(synced_at),
                i <= self.rows.len(),
                0 <= seen <= before.len() == total,
                self.rows.len() - i == before.len() - seen,
                removed == seen - i,
                self@.take(i as int) == before.take(seen).filter(keep),
                self@.skip(i as int) == before.skip(seen),
            decreases self.rows.len() - i,
        {
            let ghost now = self@;
            proof {
                assert(now.skip(i as int)[0] == before.skip(seen)[0]);
                assert(before.take(seen + 1) =~= before.take(seen).push(before[seen]));
                lemma_filter_push(before.take(seen), before[seen], keep);
            }
            if self.rows[i].profile.last_synced_at < synced_at {
                self.rows.remove(i);
                removed += 1;
                proof {
                    assert(self@ =~= now.remove(i as int));
                    assert(self@.take(i as int) =~= now.take(i as int));
                    assert(self@.skip(i as int) =~= now.skip(i as int).drop_first());
                    assert(before.skip(seen).drop_first() =~= before.skip(seen + 1));
                    seen = seen + 1;
                }
            } else {
                proof {
                    assert(now.take(i + 1) =~= now.take(i as int).push(now[i as int]));
                    assert(now.skip(i as int).drop_first() =~= now.skip(i + 1));
                    assert(before.skip(seen).drop_first() =~= before.skip(seen + 1));
                    seen = seen + 1;
                }
                i += 1;
            }
        }
        proof {
            assert(before.take(before.len() as int) =~= before);
            assert(self@.take(self.rows.len() as int) =~= self@);
        }
        removed
    }
}

/// After the clean-up of a sweep that started at the second `since`,
/// every profile in the catalogue was seen at that second or later, and
/// every profile that the sweep has seen is still there.
pub proof fn lemma_profiles_fresh_after_sweep(rows: Seq<ProfileView>, since: i64)
    ensures
        forall|i: int|
            0 <= i < rows.filter(seen_since(since)).len() ==> (#[trigger] rows.filter(
                seen_since(since),
            )[i]).last_synced_at >= since,
        forall|i: int|
            0 <= i < rows.len() && (#[trigger] rows[i]).last_synced_at >= since ==> rows.filter(
                seen_since(since),
            ).contains(rows[i]),
{
    let keep = seen_since(since);
    let kept = rows.filter(keep);
    assert forall|i: int| 0 <= i < kept.len() implies (#[trigger] kept[i]).last_synced_at
        >= since by {
        rows.lemma_filter_pred(keep, i);
        assert(keep(kept[i]));
    }
    assert forall|i: int|
        0 <= i < rows.len() && (#[trigger] rows[i]).last_synced_at >= since implies kept.contains(
        rows[i],
    ) by {
        assert(keep(rows[i]));
        rows.lemma_filter_contains(keep, i);
    }
}

} // verus!
