//! What a scoring pass leaves behind: every pair of a job and a profile
//! has one match, that match is fresh, and a second pass finds nothing
//! to do.

use crate::matches::{
    all_recorded, current_hash, has_ident, is_fresh, is_missing, is_pair, is_scored, is_unscored,
    jobs_with_profiles, lemma_reconciled, lemma_recorded_is_fresh, pairs_unique,
    profiles_with_jobs, score_recorded, stale_among, stale_entry, stale_pairs, Hashed, MatchView,
    PairView,
};
use crate::seqs::{first_index, lemma_first_index, lemma_first_index_is};
use vstd::prelude::*;

verus! {

/// Whether no two rows have the same identifier.
pub open spec fn ids_distinct(rows: Seq<Hashed>) -> bool {
    forall|i: int, j: int|
        0 <= i < j < rows.len() ==> (#[trigger] rows[i]).id != (#[trigger] rows[j]).id
}

/// Whether the pair of a job and a profile has a match, and that match
/// is fresh.
pub open spec fn has_fresh_match(rows: Seq<MatchView>, job: Hashed, profile: Hashed) -> bool {
    let i = first_index(rows, is_pair(job.id, profile.id));
    0 <= i < rows.len() && is_fresh(rows[i], job.hash, profile.hash)
}

/// Whether every pair of a job and a profile has a fresh match.
pub open spec fn all_pairs_fresh(rows: Seq<MatchView>, jobs: Seq<Hashed>, profiles: Seq<Hashed>) -> bool {
    forall|a: int, b: int|
        0 <= a < jobs.len() && 0 <= b < profiles.len() ==> has_fresh_match(
            rows,
            #[trigger] jobs[a],
            #[trigger] profiles[b],
        )
}

/// Whether a score was computed from a job and a profile that are there,
/// as they stand.
pub open spec fn is_current(new: MatchView, jobs: Seq<Hashed>, profiles: Seq<Hashed>) -> bool {
    current_hash(jobs, new.job_id) == Some(new.job_hash) && current_hash(
        profiles,
        new.profile_id,
    ) == Some(new.profile_hash)
}

/// Whether one of the scores is of the pair.
pub open spec fn names_pair(news: Seq<MatchView>, job_id: Seq<char>, profile_id: Seq<char>) -> bool {
    exists|k: int|
        0 <= k < news.len() && (#[trigger] news[k]).job_id == job_id && news[k].profile_id
            == profile_id
}

/// The pair of a job and a profile.
pub open spec fn pair_of(job: Hashed, profile: Hashed) -> PairView {
    PairView { job_id: job.id, profile_id: profile.id }
}

/// The pairs that a pass lists as stale.
pub open spec fn stale_list(rows: Seq<MatchView>, jobs: Seq<Hashed>, profiles: Seq<Hashed>) -> Seq<
    PairView,
> {
    stale_pairs(stale_among(rows, jobs, profiles, rows.len() as int))
}

/// The pairs that a pass lists as missing.
pub open spec fn missing_list(rows: Seq<MatchView>, jobs: Seq<Hashed>, profiles: Seq<Hashed>) -> Seq<
    PairView,
> {
    jobs_with_profiles(jobs, profiles).filter(is_missing(rows))
}

/// Among rows with distinct identifiers, the current hash of a row's
/// identifier is that row's hash.
pub proof fn lemma_current_hash(rows: Seq<Hashed>, a: int)
    requires
        ids_distinct(rows),
        0 <= a < rows.len(),
    ensures
        first_index(rows, has_ident(rows[a].id)) == a,
        current_hash(rows, rows[a].id) == Some(rows[a].hash),
{
    let wanted = has_ident(rows[a].id);
    assert forall|k: int| 0 <= k < a implies !wanted(#[trigger] rows[k]) by {
        assert(rows[k].id != rows[a].id);
    }
    assert(wanted(rows[a]));
    lemma_first_index_is(rows, wanted, a);
}

/// Recording a current score leaves a pair with a fresh match as it is,
/// and gives the pair that it is of a fresh match.
pub proof fn lemma_score_keeps_fresh(
    rows: Seq<MatchView>,
    new: MatchView,
    jobs: Seq<Hashed>,
    profiles: Seq<Hashed>,
    a: int,
    b: int,
)
    requires
        ids_distinct(jobs),
        ids_distinct(profiles),
        is_current(new, jobs, profiles),
        0 <= a < jobs.len(),
        0 <= b < profiles.len(),
        has_fresh_match(rows, jobs[a], profiles[b]) || (new.job_id == jobs[a].id
            && new.profile_id == profiles[b].id),
    ensures
        has_fresh_match(score_recorded(rows, new), jobs[a], profiles[b]),
{
    let after = score_recorded(rows, new);
    let wanted = is_pair(jobs[a].id, profiles[b].id);
    lemma_current_hash(jobs, a);
    lemma_current_hash(profiles, b);
    lemma_recorded_is_fresh(rows, new);
    if new.job_id == jobs[a].id && new.profile_id == profiles[b].id {
        let i = first_index(after, is_pair(new.job_id, new.profile_id));
        assert(is_scored(after, new.job_id, new.profile_id));
        assert(is_fresh(after[i], new.job_hash, new.profile_hash));
        assert(first_index(after, wanted) == i);
        lemma_first_index(after, wanted);
    } else {
        let i = first_index(rows, wanted);
        lemma_first_index(rows, wanted);
        assert(!is_pair(new.job_id, new.profile_id)(rows[i]));
        assert(after[i] == rows[i]);
        assert forall|k: int| 0 <= k < i implies !wanted(#[trigger] after[k]) by {
            assert(!wanted(rows[k]));
        }
        lemma_first_index_is(after, wanted, i);
    }
}

/// After current scores were recorded, a pair has a fresh match where it
/// had one before or one of the scores is of it.
pub proof fn lemma_pair_is_fresh_after(
    rows: Seq<MatchView>,
    news: Seq<MatchView>,
    jobs: Seq<Hashed>,
    profiles: Seq<Hashed>,
    a: int,
    b: int,
)
    requires
        ids_distinct(jobs),
        ids_distinct(profiles),
        forall|k: int| 0 <= k < news.len() ==> is_current(#[trigger] news[k], jobs, profiles),
        0 <= a < jobs.len(),
        0 <= b < profiles.len(),
        has_fresh_match(rows, jobs[a], profiles[b]) || names_pair(
            news,
            jobs[a].id,
            profiles[b].id,
        ),
    ensures
        has_fresh_match(all_recorded(rows, news), jobs[a], profiles[b]),
    decreases news.len(),
{
    if news.len() > 0 {
        let init = news.drop_last();
        let last = news.last();
        let before = all_recorded(rows, init);
        assert forall|k: int| 0 <= k < init.len() implies is_current(
            #[trigger] init[k],
            jobs,
            profiles,
        ) by {
            assert(init[k] == news[k]);
        }
        if last.job_id == jobs[a].id && last.profile_id == profiles[b].id {
        } else {
            if !has_fresh_match(rows, jobs[a], profiles[b]) {
                let k = choose|k: int|
                    0 <= k < news.len() && (#[trigger] news[k]).job_id == jobs[a].id
                        && news[k].profile_id == profiles[b].id;
                assert(init[k] == news[k]);
                assert(names_pair(init, jobs[a].id, profiles[b].id));
            }
            lemma_pair_is_fresh_after(rows, init, jobs, profiles, a, b);
        }
        lemma_score_keeps_fresh(before, last, jobs, profiles, a, b);
    }
}

/// The pairs of jobs with profiles are the pairs of a job and a profile,
/// and every such pair is among them.
pub proof fn lemma_jobs_with_profiles(jobs: Seq<Hashed>, profiles: Seq<Hashed>)
    ensures
        forall|a: int, b: int|
            0 <= a < jobs.len() && 0 <= b < profiles.len() ==> jobs_with_profiles(
                jobs,
                profiles,
            ).contains(pair_of(#[trigger] jobs[a], #[trigger] profiles[b])),
        forall|k: int|
            0 <= k < jobs_with_profiles(jobs, profiles).len() ==> is_pair_among(
                jobs,
                profiles,
                #[trigger] jobs_with_profiles(jobs, profiles)[k],
            ),
        profiles.len() == 0 ==> jobs_with_profiles(jobs, profiles).len() == 0,
    decreases jobs.len(),
{
    if jobs.len() > 0 {
        let init = jobs.drop_last();
        let head = jobs_with_profiles(init, profiles);
        let tail = crate::matches::job_with_each(jobs.last().id, profiles);
        let all = jobs_with_profiles(jobs, profiles);
        lemma_jobs_with_profiles(init, profiles);
        assert forall|a: int, b: int|
            0 <= a < jobs.len() && 0 <= b < profiles.len() implies all.contains(
            pair_of(#[trigger] jobs[a], #[trigger] profiles[b]),
        ) by {
            if a < jobs.len() - 1 {
                assert(init[a] == jobs[a]);
                assert(head.contains(pair_of(init[a], profiles[b])));
                let k = choose|k: int|
                    0 <= k < head.len() && head[k] == pair_of(init[a], profiles[b]);
                assert(all[k] == head[k]);
            } else {
                assert(all[head.len() + b] == tail[b]);
            }
        }
        assert forall|k: int| 0 <= k < all.len() implies is_pair_among(
            jobs,
            profiles,
            #[trigger] all[k],
        ) by {
            if k < head.len() {
                assert(all[k] == head[k]);
                assert(is_pair_among(init, profiles, head[k]));
                let (a, b) = choose|a: int, b: int|
                    0 <= a < init.len() && 0 <= b < profiles.len() && head[k] == pair_of(
                        #[trigger] init[a],
                        #[trigger] profiles[b],
                    );
                assert(init[a] == jobs[a]);
            } else {
                let b = k - head.len();
                assert(all[k] == tail[b]);
                assert(all[k] == pair_of(jobs[jobs.len() - 1], profiles[b]));
            }
        }
    }
}

/// Whether a pair is the pair of one of the jobs and one of the profiles.
pub open spec fn is_pair_among(jobs: Seq<Hashed>, profiles: Seq<Hashed>, pair: PairView) -> bool {
    exists|a: int, b: int|
        0 <= a < jobs.len() && 0 <= b < profiles.len() && pair == pair_of(
            #[trigger] jobs[a],
            #[trigger] profiles[b],
        )
}

/// A stale entry among the first `n` matches is listed as stale; where
/// none of them is stale, nothing is listed.
pub proof fn lemma_stale_among(
    rows: Seq<MatchView>,
    jobs: Seq<Hashed>,
    profiles: Seq<Hashed>,
    n: int,
)
    requires
        0 <= n <= rows.len(),
    ensures
        forall|k: int|
            0 <= k < n && stale_entry(#[trigger] rows[k], jobs, profiles) is Some ==> stale_among(
                rows,
                jobs,
                profiles,
                n,
            ).contains(stale_entry(rows[k], jobs, profiles)->0),
        (forall|k: int| 0 <= k < n ==> stale_entry(#[trigger] rows[k], jobs, profiles) is None)
            ==> stale_among(rows, jobs, profiles, n).len() == 0,
    decreases n,
{
    if n > 0 {
        lemma_stale_among(rows, jobs, profiles, n - 1);
        let before = stale_among(rows, jobs, profiles, n - 1);
        let all = stale_among(rows, jobs, profiles, n);
        assert forall|k: int|
            0 <= k < n && stale_entry(#[trigger] rows[k], jobs, profiles) is Some implies all.contains(
            stale_entry(rows[k], jobs, profiles)->0,
        ) by {
            let s = stale_entry(rows[k], jobs, profiles)->0;
            if k < n - 1 {
                assert(before.contains(s));
                let i = choose|i: int| 0 <= i < before.len() && before[i] == s;
                assert(all[i] == before[i]);
            } else {
                assert(all[all.len() - 1] == s);
            }
        }
    }
}

/// A pair without a fresh match is on one of the two lists of a pass that
/// say so: the stale pairs, or the missing ones.
pub proof fn lemma_plan_covers(
    rows: Seq<MatchView>,
    jobs: Seq<Hashed>,
    profiles: Seq<Hashed>,
    a: int,
    b: int,
)
    requires
        ids_distinct(jobs),
        ids_distinct(profiles),
        0 <= a < jobs.len(),
        0 <= b < profiles.len(),
        !has_fresh_match(rows, jobs[a], profiles[b]),
    ensures
        stale_list(rows, jobs, profiles).contains(pair_of(jobs[a], profiles[b])) || missing_list(
            rows,
            jobs,
            profiles,
        ).contains(pair_of(jobs[a], profiles[b])),
{
    let pair = pair_of(jobs[a], profiles[b]);
    let wanted = is_pair(jobs[a].id, profiles[b].id);
    let i = first_index(rows, wanted);
    lemma_first_index(rows, wanted);
    if i >= rows.len() {
        let all = jobs_with_profiles(jobs, profiles);
        lemma_jobs_with_profiles(jobs, profiles);
        assert(all.contains(pair));
        let k = choose|k: int| 0 <= k < all.len() && all[k] == pair;
        assert(is_missing(rows)(all[k]));
        all.lemma_filter_contains(is_missing(rows), k);
    } else {
        lemma_current_hash(jobs, a);
        lemma_current_hash(profiles, b);
        let stale = stale_among(rows, jobs, profiles, rows.len() as int);
        lemma_stale_among(rows, jobs, profiles, rows.len() as int);
        let s = stale_entry(rows[i], jobs, profiles)->0;
        assert(stale_entry(rows[i], jobs, profiles) is Some);
        assert(stale.contains(s));
        let k = choose|k: int| 0 <= k < stale.len() && stale[k] == s;
        assert(stale_pairs(stale)[k] == pair);
    }
}

/// Where every pair has a fresh match and no pair has two, a pass finds
/// nothing to do: no match is stale, no pair is missing, and no job and
/// no profile gives a pair to score.
pub proof fn lemma_nothing_left(rows: Seq<MatchView>, jobs: Seq<Hashed>, profiles: Seq<Hashed>)
    requires
        ids_distinct(jobs),
        ids_distinct(profiles),
        pairs_unique(rows),
        all_pairs_fresh(rows, jobs, profiles),
    ensures
        stale_list(rows, jobs, profiles).len() == 0,
        missing_list(rows, jobs, profiles).len() == 0,
        jobs_with_profiles(jobs.filter(is_unscored(rows, true)), profiles).len() == 0,
        profiles_with_jobs(profiles.filter(is_unscored(rows, false)), jobs).len() == 0,
{
    assert forall|k: int| 0 <= k < rows.len() implies stale_entry(
        #[trigger] rows[k],
        jobs,
        profiles,
    ) is None by {
        let m = rows[k];
        if current_hash(jobs, m.job_id) is Some && current_hash(profiles, m.profile_id) is Some {
            let a = first_index(jobs, has_ident(m.job_id));
            let b = first_index(profiles, has_ident(m.profile_id));
            lemma_first_index(jobs, has_ident(m.job_id));
            lemma_first_index(profiles, has_ident(m.profile_id));
            assert(has_fresh_match(rows, jobs[a], profiles[b]));
            let wanted = is_pair(jobs[a].id, profiles[b].id);
            let i = first_index(rows, wanted);
            lemma_first_index(rows, wanted);
            assert(wanted(rows[k]));
            if i < k {
                assert(rows[i].job_id == rows[k].job_id && rows[i].profile_id
                    == rows[k].profile_id);
            } else if i > k {
                assert(!wanted(rows[k]));
            }
        }
    }
    lemma_stale_among(rows, jobs, profiles, rows.len() as int);

    let all = jobs_with_profiles(jobs, profiles);
    let missing = all.filter(is_missing(rows));
    lemma_jobs_with_profiles(jobs, profiles);
    if missing.len() > 0 {
        all.lemma_filter_pred(is_missing(rows), 0);
        assert(missing.contains(missing[0]));
        all.lemma_filter_contains_rev(is_missing(rows), missing[0]);
        let k = choose|k: int| 0 <= k < all.len() && all[k] == missing[0];
        assert(is_pair_among(jobs, profiles, all[k]));
        let (a, b) = choose|a: int, b: int|
            0 <= a < jobs.len() && 0 <= b < profiles.len() && all[k] == pair_of(
                #[trigger] jobs[a],
                #[trigger] profiles[b],
            );
        assert(has_fresh_match(rows, jobs[a], profiles[b]));
        assert(is_scored(rows, jobs[a].id, profiles[b].id));
    }

    let new_jobs = jobs.filter(is_unscored(rows, true));
    lemma_jobs_with_profiles(new_jobs, profiles);
    if profiles.len() > 0 && new_jobs.len() > 0 {
        jobs.lemma_filter_pred(is_unscored(rows, true), 0);
        assert(new_jobs.contains(new_jobs[0]));
        jobs.lemma_filter_contains_rev(is_unscored(rows, true), new_jobs[0]);
        let a = choose|a: int| 0 <= a < jobs.len() && jobs[a] == new_jobs[0];
        assert(has_fresh_match(rows, jobs[a], profiles[0]));
        let i = first_index(rows, is_pair(jobs[a].id, profiles[0].id));
        lemma_first_index(rows, is_pair(jobs[a].id, profiles[0].id));
        assert(rows[i].job_id == jobs[a].id);
    }
    if new_jobs.len() == 0 {
        assert(jobs_with_profiles(new_jobs, profiles).len() == 0);
    }

    let new_profiles = profiles.filter(is_unscored(rows, false));
    lemma_profiles_with_jobs_len(new_profiles, jobs);
    if jobs.len() > 0 && new_profiles.len() > 0 {
        profiles.lemma_filter_pred(is_unscored(rows, false), 0);
        assert(new_profiles.contains(new_profiles[0]));
        profiles.lemma_filter_contains_rev(is_unscored(rows, false), new_profiles[0]);
        let b = choose|b: int| 0 <= b < profiles.len() && profiles[b] == new_profiles[0];
        assert(has_fresh_match(rows, jobs[0], profiles[b]));
        let i = first_index(rows, is_pair(jobs[0].id, profiles[b].id));
        lemma_first_index(rows, is_pair(jobs[0].id, profiles[b].id));
        assert(rows[i].profile_id == profiles[b].id);
    }
}

/// There are as many pairs of profiles with jobs as the two numbers
/// multiply to.
pub proof fn lemma_profiles_with_jobs_len(profiles: Seq<Hashed>, jobs: Seq<Hashed>)
    ensures
        profiles_with_jobs(profiles, jobs).len() == profiles.len() * jobs.len(),
    decreases profiles.len(),
{
    if profiles.len() > 0 {
        lemma_profiles_with_jobs_len(profiles.drop_last(), jobs);
        assert((profiles.len() - 1) * jobs.len() + jobs.len() == profiles.len() * jobs.len())
            by (nonlinear_arith);
    } else {
        assert(0 * jobs.len() == 0) by (nonlinear_arith);
    }
}

/// A scoring pass reconciles the record. Where each score is computed
/// from a job and a profile as they stand, and a score is recorded for
/// every pair that the pass lists as stale or as missing, then afterwards
/// every pair of a job and a profile has a fresh match, no pair has two
/// matches, and a second pass finds nothing to do.
pub proof fn lemma_pass_reconciles(
    rows: Seq<MatchView>,
    jobs: Seq<Hashed>,
    profiles: Seq<Hashed>,
    news: Seq<MatchView>,
)
    requires
        ids_distinct(jobs),
        ids_distinct(profiles),
        pairs_unique(rows),
        forall|k: int| 0 <= k < news.len() ==> is_current(#[trigger] news[k], jobs, profiles),
        forall|p: PairView|
            stale_list(rows, jobs, profiles).contains(p) || #[trigger] missing_list(
                rows,
                jobs,
                profiles,
            ).contains(p) ==> names_pair(news, p.job_id, p.profile_id),
    ensures
        all_pairs_fresh(all_recorded(rows, news), jobs, profiles),
        pairs_unique(all_recorded(rows, news)),
        stale_list(all_recorded(rows, news), jobs, profiles).len() == 0,
        missing_list(all_recorded(rows, news), jobs, profiles).len() == 0,
        jobs_with_profiles(
            jobs.filter(is_unscored(all_recorded(rows, news), true)),
            profiles,
        ).len() == 0,
        profiles_with_jobs(
            profiles.filter(is_unscored(all_recorded(rows, news), false)),
            jobs,
        ).len() == 0,
{
    let after = all_recorded(rows, news);
    lemma_reconciled(rows, news);
    assert forall|a: int, b: int|
        0 <= a < jobs.len() && 0 <= b < profiles.len() implies has_fresh_match(
        after,
        #[trigger] jobs[a],
        #[trigger] profiles[b],
    ) by {
        if !has_fresh_match(rows, jobs[a], profiles[b]) {
            lemma_plan_covers(rows, jobs, profiles, a, b);
            let p = pair_of(jobs[a], profiles[b]);
            assert(missing_list(rows, jobs, profiles).contains(p) || stale_list(
                rows,
                jobs,
                profiles,
            ).contains(p));
            assert(names_pair(news, p.job_id, p.profile_id));
        }
        lemma_pair_is_fresh_after(rows, news, jobs, profiles, a, b);
    }
    lemma_nothing_left(after, jobs, profiles);
}

} // verus!
