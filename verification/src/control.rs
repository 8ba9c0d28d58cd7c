//! What follows when a run reports: the job's record, the jobs that wait for
//! it, and the runs that are no longer kept.

use crate::clock::Timestamp;
use crate::config::{lemma_insert_view, Config};
use crate::job::{job_views, Job, JobView};
use crate::order::{at_places, byte_views, is_ascending, is_sorted_order, sorted_places};
use crate::path::{path_is, same_path};
use crate::schedule::Schedule;
use crate::text::{clone_bytes, clone_opt, holds_text, owned};
use vstd::prelude::*;

verus! {

/// The last job of the walk whose own path is a given one, part by part; by
/// the text it stands under.
pub open spec fn job_at(
    order: Seq<Seq<char>>,
    jobs: Map<Seq<char>, JobView>,
    path: Seq<char>,
) -> Option<Seq<char>>
    decreases order.len(),
{
    if order.len() == 0 {
        None
    } else if same_path(jobs[order.last()].path, path) {
        Some(order.last())
    } else {
        job_at(order.drop_last(), jobs, path)
    }
}

/// The jobs scheduled after the job at a path, emptied.
pub open spec fn followers(
    order: Seq<Seq<char>>,
    jobs: Map<Seq<char>, JobView>,
    path: Seq<char>,
) -> Seq<JobView>
    decreases order.len(),
{
    if order.len() == 0 {
        seq![]
    } else {
        let before = followers(order.drop_last(), jobs, path);
        if jobs[order.last()].schedule.follows(path) {
            before.push(jobs[order.last()].emptied())
        } else {
            before
        }
    }
}

/// Whether a run that is over has failed: it could not be run, or its process
/// did not succeed.
pub open spec fn has_failed(update: JobView) -> bool {
    ||| update.error is Some
    ||| update.lastrun matches Some(run) && !run.status->0.succeeded()
}

/// A job after the report that its run is over.
pub open spec fn settled(job: JobView, update: JobView) -> JobView {
    JobView {
        running: false,
        history: update.history,
        error: if update.error is Some {
            update.error
        } else {
            job.error
        },
        laststart: if update.lastrun is Some {
            update.laststart
        } else {
            job.laststart
        },
        lastrun: if update.lastrun is Some {
            update.lastrun
        } else {
            job.lastrun
        },
        ..job
    }
}

/// What is to be done when a run is over: the job to tell the web interface
/// of, whether the run failed, the jobs that were waiting for it, and how many
/// runs to keep, if they are kept at all.
pub struct Finish {
    pub job: Job,
    pub failed: bool,
    pub followers: Vec<Job>,
    pub prune: Option<usize>,
}

/// What a report comes to: a run has started, of which the web interface is to
/// be told; it is of no job; or a run is over.
pub enum Outcome {
    Started(Job),
    NotFound,
    Finished(Finish),
}

impl Config {
    /// Takes in the report of a run.
    pub fn apply_update(&mut self, update: Job) -> (r: Outcome)
        requires
            !update@.running && job_at(
                old(self)@.order,
                old(self)@.jobs,
                update@.path,
            ) is Some ==> (update@.lastrun matches Some(run) ==> run.is_over()),
        ensures
            match job_at(old(self)@.order, old(self)@.jobs, update@.path) {
                Some(key) if !update@.running => {
                    let job = settled(old(self)@.jobs[key], update@);
                    &&& final(self)@ == old(self)@.with_job(key, job)
                    &&& r matches Outcome::Finished(f)
                    &&& f.job@ == job
                    &&& f.failed == has_failed(update@)
                    &&& job_views(f.followers@) == followers(
                        old(self)@.order,
                        old(self)@.jobs,
                        update@.path,
                    )
                    &&& f.prune == if update@.history {
                        Some(old(self)@.prune)
                    } else {
                        None
                    }
                },
                _ => {
                    &&& final(self)@ == old(self)@
                    &&& if update@.running {
                        r matches Outcome::Started(job) && job@ == update@
                    } else {
                        r is NotFound
                    }
                },
            },
    {
        if update.running {
            return Outcome::Started(update);
        }
        let ghost before = self@;
        let n: usize = self.jobs.len();
        let mut waiting: Vec<Job> = Vec::new();
        let mut place: Option<usize> = None;
        let mut i: usize = 0;
        assert(before.order.take(0) == Seq::<Seq<char>>::empty());
        assert(job_views(waiting@) == Seq::<JobView>::empty());
        while i < n
            invariant
                i <= n == before.order.len(),
                before == self@,
                *self == *old(self),
                job_views(waiting@) == followers(
                    before.order.take(i as int),
                    before.jobs,
                    update@.path,
                ),
                match place {
                    Some(p) => p < i && job_at(
                        before.order.take(i as int),
                        before.jobs,
                        update@.path,
                    ) == Some(before.order[p as int]),
                    None => job_at(before.order.take(i as int), before.jobs, update@.path) is None,
                },
            decreases n - i,
        {
            let job = self.jobs.value_at(i);
            let ghost key = before.order[i as int];
            let ghost next = before.order.take(i + 1);
            assert(next.drop_last() == before.order.take(i as int));
            assert(next.last() == key);
            assert(before.jobs[key] == job@);
            if let Schedule::After(after) = &job.schedule {
                if holds_text(after, &update.path) {
                    let ghost so_far = job_views(waiting@);
                    waiting.push(job.clone_empty());
                    assert(job_views(waiting@) == so_far.push(job@.emptied()));
                }
            }
            if path_is(&job.path, &update.path) {
                place = Some(i);
            }
            i = i + 1;
        }
        assert(before.order.take(n as int) == before.order);
        let at: usize = match place {
            Some(p) => p,
            None => {
                return Outcome::NotFound;
            },
        };
        let mut failed: bool = false;
        let mut job = self.jobs.value_at(at).clone();
        let ghost key = before.order[at as int];
        assert(job@ == before.jobs[key]);
        job.running = false;
        job.history = update.history;
        if update.error.is_some() {
            job.error = clone_opt(&update.error);
            failed = true;
        }
        if let Some(run) = &update.lastrun {
            if !run.status.unwrap().success() {
                failed = true;
            }
            job.laststart = update.laststart;
            job.lastrun = Some(run.clone());
        }
        let copy = job.clone();
        let prune = if job.history {
            Some(self.prune)
        } else {
            None
        };
        proof {
            lemma_insert_view(self.jobs@, key, job);
        }
        self.jobs.set_at(at, job);
        assert(before.jobs.contains_key(key));
        Outcome::Finished(Finish { job: copy, failed, followers: waiting, prune })
    }

    /// Counts that a job was not started because the one it waits for failed;
    /// the result is the job to tell the web interface of, if it is there.
    pub fn skip_follower(&mut self, path: &str) -> (r: Option<Job>)
        requires
            old(self)@.jobs.contains_key(path@) ==> old(self)@.jobs[path@].skipped < usize::MAX,
        ensures
            match r {
                Some(job) => old(self)@.jobs.contains_key(path@) && final(self)@ == old(
                    self,
                )@.with_skip(path@) && job@ == final(self)@.jobs[path@],
                None => !old(self)@.jobs.contains_key(path@) && final(self)@ == old(self)@,
            },
    {
        let mut job = match self.jobs.get(path) {
            Some(job) => job.clone(),
            None => {
                return None;
            },
        };
        job.skipped = job.skipped + 1;
        let copy = job.clone();
        proof {
            lemma_insert_view(self.jobs@, path@, job);
        }
        self.jobs.insert(owned(path), job);
        Some(copy)
    }
}

/// Starts a job that waited for another one, unless that one failed.
pub fn start_follower(failed: bool, follower: Job, now: Timestamp) -> (r: Option<Job>)
    ensures
        r is Some <==> !failed,
        r matches Some(job) ==> job@ == (JobView { laststart: Some(now), ..follower@ }),
{
    if failed {
        return None;
    }
    let mut job = follower;
    job.laststart = Some(now);
    Some(job)
}

/// Which runs to remove, in this order, and which to keep.
pub struct PrunePlan {
    pub remove: Vec<Vec<u8>>,
    pub keep: Vec<Vec<u8>>,
}

/// Whether runs are split as they should be, by name: those to remove in
/// ascending order, then those to keep, which are the last ones in that order
/// and as many as the limit allows.
pub open spec fn is_prune_plan(
    names: Seq<Seq<u8>>,
    limit: int,
    remove: Seq<Seq<u8>>,
    keep: Seq<Seq<u8>>,
) -> bool {
    &&& (remove + keep).to_multiset() == names.to_multiset()
    &&& is_ascending(remove + keep)
    &&& keep.len() == if names.len() <= limit {
        names.len() as int
    } else {
        limit
    }
}

/// Splits the runs of a job, by name, into those to remove and those to keep.
pub fn prune(names: &Vec<Vec<u8>>, limit: usize) -> (plan: PrunePlan)
    ensures
        is_prune_plan(
            byte_views(names@),
            limit as int,
            byte_views(plan.remove@),
            byte_views(plan.keep@),
        ),
{
    let places = sorted_places(names);
    let ghost all = byte_views(names@);
    let ghost sorted = at_places(all, places@);
    let count: usize = if names.len() <= limit {
        0
    } else {
        names.len() - limit
    };
    let mut remove: Vec<Vec<u8>> = Vec::new();
    let mut keep: Vec<Vec<u8>> = Vec::new();
    let mut i: usize = 0;
    while i < places.len()
        invariant
            i <= places@.len() == names@.len(),
            count <= names@.len(),
            all == byte_views(names@),
            sorted == at_places(all, places@),
            is_sorted_order(all, places@),
            byte_views(remove@) + byte_views(keep@) == sorted.take(i as int),
            remove@.len() == if i < count {
                i
            } else {
                count
            },
        decreases places.len() - i,
    {
        let ghost so_far = byte_views(remove@) + byte_views(keep@);
        let ghost removed = byte_views(remove@);
        let ghost kept = byte_views(keep@);
        let name = clone_bytes(&names[places[i]]);
        assert(name@ == sorted[i as int]);
        assert(sorted.take(i + 1) == sorted.take(i as int).push(sorted[i as int]));
        if i < count {
            remove.push(name);
            assert(byte_views(remove@) == removed.push(name@));
            assert(keep@.len() == 0);
            assert(byte_views(remove@) + byte_views(keep@) == so_far.push(name@));
        } else {
            keep.push(name);
            assert(byte_views(keep@) == kept.push(name@));
            assert(byte_views(remove@) + byte_views(keep@) == so_far.push(name@));
        }
        i = i + 1;
    }
    assert(sorted.take(i as int) == sorted);
    PrunePlan { remove, keep }
}

} // verus!
