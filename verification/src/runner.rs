//! Which jobs start next, and whether a job may start.

use crate::clock::Timestamp;
use crate::config::{lemma_insert_view, pair_texts, with_entries, Config, ConfigView};
use crate::job::{job_views, Job, JobView};
use crate::schedule::Schedule;
use vstd::prelude::*;

verus! {

/// A job that was asked to start: it runs already and is passed over, or it
/// starts.
pub enum Admission {
    Skip(Job),
    Start(Job),
}

impl ConfigView {
    /// Whether a job may start: not if it runs already.
    pub open spec fn may_start(self, path: Seq<char>) -> bool {
        !(self.jobs.contains_key(path) && self.jobs[path].running)
    }

    /// Whether instants can be the next ones of the jobs by their cron
    /// expressions, in the order of the walk.
    pub open spec fn allows(self, upcoming: Seq<Option<Timestamp>>) -> bool {
        &&& upcoming.len() == self.order.len()
        &&& forall|i: int|
            0 <= i < upcoming.len() ==> self.jobs[self.order[i]].schedule.allows(
                #[trigger] upcoming[i],
            )
    }

    /// Whether instants are the next ones of the jobs, as they were asked for,
    /// in the order of the walk.
    pub open spec fn gave(self, upcoming: Seq<Option<Timestamp>>) -> bool {
        &&& upcoming.len() == self.order.len()
        &&& forall|i: int|
            0 <= i < upcoming.len() ==> self.jobs[self.order[i]].schedule.gave(
                #[trigger] upcoming[i],
            )
    }

    /// How often a job was passed over, counting this time.
    pub open spec fn next_skip(self, path: Seq<char>) -> usize {
        (self.jobs[path].skipped + 1) as usize
    }

    /// The state in which a job was passed over once more.
    pub open spec fn with_skip(self, path: Seq<char>) -> ConfigView {
        self.with_job(path, JobView { skipped: self.next_skip(path), ..self.jobs[path] })
    }

    /// The state after a job was asked to start.
    pub open spec fn with_request(self, job: JobView) -> ConfigView {
        if !self.may_start(job.path) {
            self.with_skip(job.path)
        } else if self.jobs.contains_key(job.path) {
            self.with_job(
                job.path,
                JobView {
                    skipped: 0,
                    running: true,
                    laststart: job.laststart,
                    ..self.jobs[job.path]
                },
            )
        } else {
            self
        }
    }
}

impl Config {
    /// Decides whether a job may start. One that runs already is passed over,
    /// which is counted.
    pub fn request_start(&mut self, job: Job) -> (r: Admission)
        requires
            !old(self)@.may_start(job@.path) ==> old(self)@.jobs[job@.path].skipped < usize::MAX,
        ensures
            final(self)@ == old(self)@.with_request(job@),
            if old(self)@.may_start(job@.path) {
                r matches Admission::Start(j) && j@ == (JobView { running: true, ..job@ })
            } else {
                r matches Admission::Skip(j) && j@ == (JobView {
                    skipped: old(self)@.next_skip(job@.path),
                    ..job@
                })
            },
    {
        let mut job = job;
        let key = job.path.clone();
        if let Some(own) = self.jobs.get(&key) {
            let mut own = own.clone();
            let skip = own.running;
            if skip {
                own.skipped = own.skipped + 1;
                job.skipped = own.skipped;
            } else {
                own.skipped = 0;
                own.running = true;
                own.laststart = job.laststart;
            }
            proof {
                lemma_insert_view(self.jobs@, key@, own);
            }
            self.jobs.insert(key, own);
            if skip {
                return Admission::Skip(job);
            }
        }
        job.running = true;
        Admission::Start(job)
    }
}

/// The instant at which the job at a place of the walk starts next by its cron
/// expression, given the next instants of all of them.
pub open spec fn start_of(
    config: ConfigView,
    upcoming: Seq<Option<Timestamp>>,
    i: int,
) -> Option<Timestamp> {
    if config.jobs[config.order[i]].schedule is Schedule {
        upcoming[i]
    } else {
        None
    }
}

/// The earliest instant at which one of the first jobs of the walk starts,
/// but no later than a horizon.
pub open spec fn earliest(
    config: ConfigView,
    upcoming: Seq<Option<Timestamp>>,
    horizon: int,
    n: int,
) -> int
    decreases n,
{
    if n <= 0 {
        horizon
    } else {
        let before = earliest(config, upcoming, horizon, n - 1);
        match start_of(config, upcoming, n - 1) {
            Some(t) if t.instant() < before => t.instant(),
            _ => before,
        }
    }
}

/// Those of the first jobs of the walk that start at an instant, emptied, with
/// that instant as their start.
pub open spec fn starting(
    config: ConfigView,
    upcoming: Seq<Option<Timestamp>>,
    instant: int,
    n: int,
) -> Seq<JobView>
    decreases n,
{
    if n <= 0 {
        seq![]
    } else {
        let before = starting(config, upcoming, instant, n - 1);
        match start_of(config, upcoming, n - 1) {
            Some(t) if t.instant() == instant => before.push(
                JobView { laststart: Some(t), ..config.jobs[config.order[n - 1]].emptied() },
            ),
            _ => before,
        }
    }
}

proof fn lemma_earliest(
    config: ConfigView,
    upcoming: Seq<Option<Timestamp>>,
    horizon: int,
    n: int,
    i: int,
)
    requires
        0 <= i < n,
    ensures
        earliest(config, upcoming, horizon, n) <= horizon,
        start_of(config, upcoming, i) matches Some(t) ==> earliest(config, upcoming, horizon, n)
            <= t.instant(),
    decreases n,
{
    reveal_with_fuel(earliest, 2);
    if i < n - 1 {
        lemma_earliest(config, upcoming, horizon, n - 1, i);
    } else if n > 1 {
        lemma_earliest(config, upcoming, horizon, n - 1, 0);
    }
}

proof fn lemma_none_starting(
    config: ConfigView,
    upcoming: Seq<Option<Timestamp>>,
    horizon: int,
    n: int,
    m: int,
    instant: int,
)
    requires
        0 <= m <= n,
        instant < earliest(config, upcoming, horizon, n),
    ensures
        starting(config, upcoming, instant, m) == Seq::<JobView>::empty(),
    decreases m,
{
    if m > 0 {
        lemma_none_starting(config, upcoming, horizon, n, m - 1, instant);
        lemma_earliest(config, upcoming, horizon, n, m - 1);
    }
}

/// The latest instant for which the runner sleeps before it looks again: five
/// minutes from now.
pub fn horizon(now: &Timestamp) -> (t: Option<Timestamp>)
    ensures
        t is Some <==> now.spec_secs() + 300 <= 8_210_266_876_799,
        t matches Some(t) ==> t.instant() == now.instant() + 300_000_000_000 && t.spec_offset()
            == now.spec_offset(),
{
    now.later(300)
}

impl Config {
    /// The next instant of each job by its cron expression, in the order of
    /// the walk, with whatever the expressions give next.
    pub fn upcoming(&self) -> (r: Vec<Option<Timestamp>>)
        ensures
            self@.allows(r@),
            self@.gave(r@),
    {
        let mut r: Vec<Option<Timestamp>> = Vec::new();
        let n: usize = self.jobs.len();
        let mut i: usize = 0;
        while i < n
            invariant
                i <= n == self@.order.len(),
                r@.len() == i,
                forall|k: int|
                    0 <= k < i ==> self@.jobs[self@.order[k]].schedule.allows(#[trigger] r@[k])
                        && self@.jobs[self@.order[k]].schedule.gave(r@[k]),
            decreases n - i,
        {
            let job = self.jobs.value_at(i);
            assert(self@.jobs[self@.order[i as int]] == job@);
            r.push(job.schedule.upcoming());
            i = i + 1;
        }
        r
    }

    /// When the runner is to wake up, and the jobs that it is to start then,
    /// given the next instant of each job by its cron expression.
    pub fn next_jobs(&self, upcoming: &Vec<Option<Timestamp>>, horizon: Timestamp) -> (r: (
        Timestamp,
        Vec<Job>,
    ))
        requires
            upcoming@.len() == self@.order.len(),
        ensures
            r.0.instant() == earliest(
                self@,
                upcoming@,
                horizon.instant(),
                self@.order.len() as int,
            ),
            job_views(r.1@) == starting(
                self@,
                upcoming@,
                r.0.instant(),
                self@.order.len() as int,
            ),
    {
        let n: usize = self.jobs.len();
        let mut next: Timestamp = horizon;
        let mut jobs: Vec<Job> = Vec::new();
        let mut i: usize = 0;
        assert(job_views(jobs@) == Seq::<JobView>::empty());
        while i < n
            invariant
                i <= n == self@.order.len() == upcoming@.len(),
                next.instant() == earliest(self@, upcoming@, horizon.instant(), i as int),
                job_views(jobs@) == starting(self@, upcoming@, next.instant(), i as int),
            decreases n - i,
        {
            let job = self.jobs.value_at(i);
            assert(self@.jobs[self@.order[i as int]] == job@);
            if let Schedule::Schedule(_) = &job.schedule {
                if let Some(at) = upcoming[i] {
                    assert(start_of(self@, upcoming@, i as int) == Some(at));
                    if !next.before(&at) {
                        if at.before(&next) {
                            proof {
                                lemma_none_starting(
                                    self@,
                                    upcoming@,
                                    horizon.instant(),
                                    i as int,
                                    i as int,
                                    at.instant(),
                                );
                            }
                            jobs.clear();
                            next = at;
                            assert(job_views(jobs@) == Seq::<JobView>::empty());
                        }
                        let ghost so_far = job_views(jobs@);
                        let mut copy = job.clone_empty();
                        copy.laststart = Some(at);
                        jobs.push(copy);
                        assert(job_views(jobs@) == so_far.push(copy@));
                    }
                }
            }
            i = i + 1;
        }
        (next, jobs)
    }

    /// When the runner is to wake up, and the jobs that it is to start then,
    /// with whatever the cron expressions give next.
    pub fn plan(&self, horizon: Timestamp) -> (r: (Timestamp, Vec<Job>))
        ensures
            exists|upcoming: Seq<Option<Timestamp>>|
                {
                    &&& self@.allows(upcoming)
                    &&& self@.gave(upcoming)
                    &&& r.0.instant() == #[trigger] earliest(
                        self@,
                        upcoming,
                        horizon.instant(),
                        self@.order.len() as int,
                    )
                    &&& job_views(r.1@) == starting(
                        self@,
                        upcoming,
                        r.0.instant(),
                        self@.order.len() as int,
                    )
                },
    {
        let upcoming = self.upcoming();
        self.next_jobs(&upcoming, horizon)
    }

    /// What the runner adds to the environment of commands.
    pub fn env_pairs(&self) -> (r: Vec<(String, String)>)
        ensures
            with_entries(Map::empty(), pair_texts(r@)) == self@.env,
            r@.len() == self.env.keys().len(),
    {
        let mut r: Vec<(String, String)> = Vec::new();
        let n: usize = self.env.len();
        let mut i: usize = 0;
        assert(self.env.keys().take(0) == Seq::<Seq<char>>::empty());
        while i < n
            invariant
                i <= n == self.env.keys().len(),
                r@.len() == i,
                self.env.keys().no_duplicates(),
                forall|k: Seq<char>| #[trigger]
                    with_entries(Map::empty(), pair_texts(r@)).contains_key(k)
                        <==> self.env.keys().take(i as int).contains(k),
                forall|k: int|
                    0 <= k < i ==> #[trigger] with_entries(
                        Map::empty(),
                        pair_texts(r@),
                    )[self.env.keys()[k]] == self@.env[self.env.keys()[k]],
            decreases n - i,
        {
            let key = self.env.key_at(i);
            let value = self.env.value_at(i);
            let ghost before = pair_texts(r@);
            let ghost done = with_entries(Map::empty(), before);
            r.push((key.clone(), value.clone()));
            proof {
                assert(pair_texts(r@) == before.push((key@, value@)));
                assert(before.push((key@, value@)).drop_last() == before);
                let now = with_entries(Map::empty(), pair_texts(r@));
                assert(now == done.insert(key@, value@));
                let taken = self.env.keys().take(i as int);
                let more = self.env.keys().take(i + 1);
                assert(more == taken.push(key@));
                assert forall|k: Seq<char>| #[trigger] now.contains_key(k) <==> more.contains(
                    k,
                ) by {
                    if more.contains(k) && k != key@ {
                        let j = more.index_of(k);
                        assert(taken[j] == k);
                    }
                    if taken.contains(k) {
                        let j = taken.index_of(k);
                        assert(more[j] == k);
                    }
                    assert(more[i as int] == key@);
                    assert(done.contains_key(k) <==> taken.contains(k));
                }
            }
            i = i + 1;
        }
        proof {
            let all = with_entries(Map::empty(), pair_texts(r@));
            assert(self.env.keys().take(n as int) == self.env.keys());
            assert forall|k: Seq<char>| #[trigger] self@.env.contains_key(k) implies all[k]
                == self@.env[k] by {
                let j = self.env.keys().index_of(k);
                assert(all[self.env.keys()[j]] == self@.env[self.env.keys()[j]]);
            }
            assert forall|k: Seq<char>| all.contains_key(k) <==> #[trigger] self@.env.contains_key(
                k,
            ) by {}
            assert(all =~= self@.env);
        }
        r
    }
}

/// The runner wakes up no later than its horizon and no later than any job
/// starts by its cron expression; so each job that starts by then starts at
/// that instant, and is among those to start.
pub proof fn no_start_is_missed(
    config: ConfigView,
    upcoming: Seq<Option<Timestamp>>,
    horizon: int,
    i: int,
)
    requires
        upcoming.len() == config.order.len(),
        0 <= i < config.order.len(),
    ensures
        ({
            let n = config.order.len() as int;
            let wake = earliest(config, upcoming, horizon, n);
            &&& wake <= horizon
            &&& start_of(config, upcoming, i) matches Some(t) ==> {
                &&& wake <= t.instant()
                &&& t.instant() <= wake ==> starting(config, upcoming, wake, n).contains(
                    JobView { laststart: Some(t), ..config.jobs[config.order[i]].emptied() },
                )
            }
        }),
{
    let n = config.order.len() as int;
    lemma_earliest(config, upcoming, horizon, n, i);
    let wake = earliest(config, upcoming, horizon, n);
    if let Some(t) = start_of(config, upcoming, i) {
        if t.instant() == wake {
            lemma_starting_contains(config, upcoming, wake, n, i, t);
        }
    }
}

proof fn lemma_starting_contains(
    config: ConfigView,
    upcoming: Seq<Option<Timestamp>>,
    instant: int,
    n: int,
    i: int,
    t: Timestamp,
)
    requires
        0 <= i < n,
        start_of(config, upcoming, i) == Some(t),
        t.instant() == instant,
    ensures
        starting(config, upcoming, instant, n).contains(
            JobView { laststart: Some(t), ..config.jobs[config.order[i]].emptied() },
        ),
    decreases n,
{
    let job = JobView { laststart: Some(t), ..config.jobs[config.order[i]].emptied() };
    let before = starting(config, upcoming, instant, n - 1);
    let all = starting(config, upcoming, instant, n);
    if i < n - 1 {
        lemma_starting_contains(config, upcoming, instant, n - 1, i, t);
        let k = before.index_of(job);
        assert(all[k] == job);
    } else {
        assert(all == before.push(job));
        assert(all[before.len() as int] == job);
    }
}

/// Every job that is to start has a cron expression, and the start that it is
/// given is an instant of that expression.
pub proof fn planned_starts_are_scheduled(
    config: ConfigView,
    upcoming: Seq<Option<Timestamp>>,
    instant: int,
    n: int,
)
    requires
        config.allows(upcoming),
        n <= config.order.len(),
    ensures
        forall|j: int|
            0 <= j < starting(config, upcoming, instant, n).len() ==> {
                let job = #[trigger] starting(config, upcoming, instant, n)[j];
                job.laststart matches Some(t) && t.instant() == instant && job.schedule.includes(t)
            },
    decreases n,
{
    if n > 0 {
        planned_starts_are_scheduled(config, upcoming, instant, n - 1);
        let before = starting(config, upcoming, instant, n - 1);
        let all = starting(config, upcoming, instant, n);
        assert forall|j: int| 0 <= j < all.len() implies {
            let job = #[trigger] all[j];
            job.laststart matches Some(t) && t.instant() == instant && job.schedule.includes(t)
        } by {
            if j < before.len() {
                assert(all[j] == before[j]);
            } else {
                assert(config.jobs[config.order[n - 1]].schedule.allows(upcoming[n - 1]));
            }
        }
    }
}

} // verus!
