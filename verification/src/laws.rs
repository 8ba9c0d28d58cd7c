//! What holds of the runner as a whole.

use crate::clock::Timestamp;
use crate::config::{checked, missing, ConfigView};
use crate::control::{followers, has_failed, is_prune_plan, job_at, settled};
use crate::execution::{first_step, ActionView, EndingView, EventView, ExecutionView, Stage};
use crate::job::{job_of_file, jobfile_job_is_fresh, JobView};
use crate::order::{
    bytes_le, bytes_le_antisymmetric, bytes_le_reflexive, bytes_le_total, bytes_le_transitive,
    is_ascending, is_sorted_order,
};
use crate::path::{is_plain, parts_of, plain_paths_are_told_apart, same_path, slashed};
use crate::run::{status_file_round_trip, status_in_file};
use crate::schedule::{schedule_of, ScheduleView};
use crate::table::{lemma_filter_out_none, lemma_filter_out_one};
use crate::text::{
    decimal, is_space, lemma_word_len_bound, spaced, unsigned_of, unsigned_round_trip, word_len,
    words_of,
};
use crate::web::{record_of, FeedEventView, FeedStage, RunEntryView};
use vstd::prelude::*;

verus! {

impl ConfigView {
    /// Whether the walk meets every job just once.
    pub open spec fn is_walkable(self) -> bool {
        &&& self.order.no_duplicates()
        &&& forall|k: Seq<char>| #[trigger] self.jobs.contains_key(k) <==> self.order.contains(k)
    }

    /// Whether every job stands under its own path, but for one without name
    /// and path that stands for a job whose file is yet to be read.
    pub open spec fn is_placed(self) -> bool {
        forall|k: Seq<char>| #[trigger]
            self.jobs.contains_key(k) ==> self.jobs[k].path == k || is_placeholder(self.jobs[k])
    }
}

/// Whether a job stands for one whose file is yet to be read.
pub open spec fn is_placeholder(job: JobView) -> bool {
    job.update && job.name.len() == 0 && job.path.len() == 0
}

/// At the start there are no jobs, so the walk is whole and every job stands
/// under its own path.
pub proof fn start_is_in_order(config: ConfigView)
    requires
        config.order == Seq::<Seq<char>>::empty(),
        config.jobs == Map::<Seq<char>, JobView>::empty(),
    ensures
        config.is_walkable(),
        config.is_placed(),
{
}

proof fn lemma_with_job_is_walkable(config: ConfigView, path: Seq<char>, job: JobView)
    requires
        config.is_walkable(),
    ensures
        config.with_job(path, job).is_walkable(),
{
    let after = config.with_job(path, job);
    if !config.jobs.contains_key(path) {
        assert(!config.order.contains(path));
        assert forall|k: Seq<char>| #[trigger] after.jobs.contains_key(k) <==> after.order.contains(
            k,
        ) by {
            if config.order.contains(k) {
                let i = config.order.index_of(k);
                assert(after.order[i] == k);
            }
            assert(after.order[config.order.len() as int] == path);
        }
    }
}

/// Whatever happens to the jobs, the walk meets every one of them just once:
/// when a job is put at a path, be it read, updated, asked to start, passed
/// over or settled; when a job is taken out; and when the jobs are checked.
pub proof fn walk_stays_whole(config: ConfigView, path: Seq<char>, job: JobView)
    requires
        config.is_walkable(),
    ensures
        config.with_job(path, job).is_walkable(),
        config.with_update_begun(path).is_walkable(),
        config.with_update_ended(path, job).is_walkable(),
        config.with_request(job).is_walkable(),
        config.with_skip(path).is_walkable(),
        config.without_job(path).is_walkable(),
        config.with_jobs_checked().is_walkable(),
{
    assert forall|p: Seq<char>, j: JobView| #[trigger] config.with_job(p, j).is_walkable() by {
        lemma_with_job_is_walkable(config, p, j);
    }
    assert(config.with_request(job).is_walkable());
    let after = config.without_job(path);
    if config.order.contains(path) {
        let i = config.order.index_of(path);
        lemma_filter_out_one(config.order, i);
        assert(after.order == config.order.remove(i));
        assert forall|k: Seq<char>| #[trigger] after.jobs.contains_key(k) <==> after.order.contains(
            k,
        ) by {
            if after.order.contains(k) {
                let j = after.order.index_of(k);
                assert(config.order[if j < i { j } else { j + 1 }] == k);
            }
            if config.order.contains(k) && k != path {
                let j = config.order.index_of(k);
                assert(after.order[if j < i { j } else { j - 1 }] == k);
            }
        }
    } else {
        lemma_filter_out_none(config.order, path);
    }
    let checked = config.with_jobs_checked();
    assert forall|k: Seq<char>| #[trigger] checked.jobs.contains_key(k) <==> checked.order.contains(
        k,
    ) by {
        assert(config.jobs.contains_key(k) <==> config.order.contains(k));
    }
}

/// Whatever happens to the jobs, every one of them stands under its own path,
/// but for those whose file is yet to be read: when a job file is read, be it
/// for the first time or again; when an update begins, or ends with a job that
/// was read from that path; when a job is asked to start; when one that is there
/// is passed over or settled; when a job is taken out; and when the jobs are
/// checked.
pub proof fn jobs_stay_placed(
    config: ConfigView,
    path: Seq<char>,
    yaml: Seq<char>,
    history: bool,
    job: JobView,
)
    requires
        config.is_placed(),
    ensures
        config.with_job(path, JobView { history, ..job_of_file(path, yaml) }).is_placed(),
        config.with_update_begun(path).is_placed(),
        config.with_update_ended(path, job_of_file(path, yaml)).is_placed(),
        config.with_request(job).is_placed(),
        config.jobs.contains_key(path) ==> config.with_skip(path).is_placed(),
        config.jobs.contains_key(path) ==> config.with_job(
            path,
            settled(config.jobs[path], job),
        ).is_placed(),
        config.without_job(path).is_placed(),
        config.with_jobs_checked().is_placed(),
{
    jobfile_job_is_fresh(path, yaml);
    let checked = config.with_jobs_checked();
    assert forall|k: Seq<char>| #[trigger] checked.jobs.contains_key(k) implies checked.jobs[k].path
        == k || is_placeholder(checked.jobs[k]) by {
        assert(config.jobs.contains_key(k));
    }
    let without = config.without_job(path);
    assert forall|k: Seq<char>| #[trigger] without.jobs.contains_key(k) implies without.jobs[k].path
        == k || is_placeholder(without.jobs[k]) by {
        assert(config.jobs.contains_key(k));
    }
    lemma_with_job_is_placed(config);
}

proof fn lemma_with_job_is_placed(config: ConfigView)
    requires
        config.is_placed(),
    ensures
        forall|p: Seq<char>, j: JobView|
            j.path == p || is_placeholder(j) ==> #[trigger] config.with_job(p, j).is_placed(),
{
    assert forall|p: Seq<char>, j: JobView| j.path == p || is_placeholder(j) implies
        #[trigger] config.with_job(p, j).is_placed() by {
        let after = config.with_job(p, j);
        assert forall|k: Seq<char>| #[trigger] after.jobs.contains_key(k) implies after.jobs[k].path
            == k || is_placeholder(after.jobs[k]) by {
            assert(k == p || config.jobs.contains_key(k));
        }
    }
}

/// The update of a path at which there is no job yet puts a job there that
/// stands for it.
pub proof fn new_job_is_placed(config: ConfigView, path: Seq<char>)
    requires
        config.is_placed(),
        !config.jobs.contains_key(path),
    ensures
        config.with_update_begun(path).is_placed(),
        is_placeholder(config.with_update_begun(path).jobs[path]),
{
    lemma_with_job_is_placed(config);
}

/// A report finds the job that stands under its own path, wherever the walk
/// meets it, unless a later one has another spelling of the same path.
pub proof fn report_finds_its_job(config: ConfigView, path: Seq<char>)
    requires
        config.is_walkable(),
        config.jobs.contains_key(path),
        config.jobs[path].path == path,
        forall|i: int, j: int|
            0 <= i < j < config.order.len() && #[trigger] config.order[i] == path ==> !same_path(
                config.jobs[#[trigger] config.order[j]].path,
                path,
            ),
    ensures
        job_at(config.order, config.jobs, path) == Some(path),
{
    let i = config.order.index_of(path);
    lemma_job_at(config, path, i, config.order.len() as int);
    assert(config.order.take(config.order.len() as int) == config.order);
}

/// Where jobs stand under plain paths, as the names of directories are, no two
/// have the same path, so a report finds every job.
pub proof fn report_finds_every_plain_job(config: ConfigView, path: Seq<char>)
    requires
        config.is_walkable(),
        config.is_placed(),
        config.jobs.contains_key(path),
        config.jobs[path].path == path,
        path.len() > 0,
        forall|k: Seq<char>| #[trigger] config.jobs.contains_key(k) ==> is_plain(k),
    ensures
        job_at(config.order, config.jobs, path) == Some(path),
{
    assert forall|i: int, j: int|
        0 <= i < j < config.order.len() && #[trigger] config.order[i] == path implies !same_path(
        config.jobs[#[trigger] config.order[j]].path,
        path,
    ) by {
        let k = config.order[j];
        assert(config.order.contains(k));
        assert(config.jobs.contains_key(k));
        let other = config.jobs[k].path;
        if same_path(other, path) {
            if other == k {
                plain_paths_are_told_apart(k, path);
            } else {
                assert(other == Seq::<char>::empty());
                assert(parts_of(other) == Seq::<Seq<char>>::empty());
                assert(path == slashed(parts_of(path)));
                assert(false);
            }
        }
    }
    report_finds_its_job(config, path);
}

/// Whichever job a report finds has the path of the report, and none does if it
/// finds none.
pub proof fn report_finds_by_path(
    order: Seq<Seq<char>>,
    jobs: Map<Seq<char>, JobView>,
    path: Seq<char>,
)
    ensures
        match job_at(order, jobs, path) {
            Some(k) => order.contains(k) && same_path(jobs[k].path, path),
            None => forall|i: int|
                0 <= i < order.len() ==> !same_path(jobs[#[trigger] order[i]].path, path),
        },
    decreases order.len(),
{
    if order.len() > 0 {
        let first = order.drop_last();
        report_finds_by_path(first, jobs, path);
        assert(order.contains(order.last())) by {
            assert(order[order.len() - 1] == order.last());
        }
        if let Some(k) = job_at(first, jobs, path) {
            let i = first.index_of(k);
            assert(order[i] == k);
        }
        assert forall|i: int| 0 <= i < first.len() implies order[i] == #[trigger] first[i] by {}
        if job_at(order, jobs, path) is None {
            assert forall|i: int| 0 <= i < order.len() implies !same_path(
                jobs[#[trigger] order[i]].path,
                path,
            ) by {
                if i < first.len() {
                    assert(first[i] == order[i]);
                }
            }
        }
    }
}

proof fn lemma_job_at(config: ConfigView, path: Seq<char>, i: int, n: int)
    requires
        config.jobs[path].path == path,
        0 <= i < n <= config.order.len(),
        config.order[i] == path,
        forall|j: int|
            i < j < config.order.len() ==> !same_path(
                config.jobs[#[trigger] config.order[j]].path,
                path,
            ),
    ensures
        job_at(config.order.take(n), config.jobs, path) == Some(path),
    decreases n,
{
    let taken = config.order.take(n);
    assert(taken.drop_last() == config.order.take(n - 1));
    if i < n - 1 {
        assert(taken.last() == config.order[n - 1]);
        lemma_job_at(config, path, i, n - 1);
    }
}

/// The jobs that go on when a run is over are those that wait for it, each
/// emptied: every one of them, and no other.
pub proof fn just_the_followers_go_on(
    order: Seq<Seq<char>>,
    jobs: Map<Seq<char>, JobView>,
    path: Seq<char>,
)
    ensures
        forall|i: int|
            0 <= i < order.len() && jobs[#[trigger] order[i]].schedule.follows(path)
                ==> followers(order, jobs, path).contains(jobs[order[i]].emptied()),
        forall|j: int|
            0 <= j < followers(order, jobs, path).len() ==> (#[trigger] followers(
                order,
                jobs,
                path,
            )[j]).schedule.follows(path),
    decreases order.len(),
{
    if order.len() > 0 {
        let first = order.drop_last();
        let before = followers(first, jobs, path);
        let all = followers(order, jobs, path);
        let last = jobs[order.last()];
        just_the_followers_go_on(first, jobs, path);
        assert forall|i: int|
            0 <= i < order.len() && jobs[#[trigger] order[i]].schedule.follows(
                path,
            ) implies all.contains(jobs[order[i]].emptied()) by {
            if i < first.len() {
                assert(first[i] == order[i]);
                let j = before.index_of(jobs[order[i]].emptied());
                assert(all[j] == jobs[order[i]].emptied());
            } else {
                assert(all[before.len() as int] == last.emptied());
            }
        }
        assert forall|j: int| 0 <= j < all.len() implies (#[trigger] all[j]).schedule.follows(
            path,
        ) by {
            if j < before.len() {
                assert(all[j] == before[j]);
            }
        }
    }
}

/// Once an update of a job has begun, another one does not begin until it has
/// ended; it ends with whatever was read of the job file.
pub proof fn updates_do_not_overlap(config: ConfigView, path: Seq<char>, yaml: Seq<char>)
    ensures
        config.with_update_begun(path).is_updating(path),
        !config.with_update_begun(path).with_update_ended(
            path,
            job_of_file(path, yaml),
        ).is_updating(path),
{
    jobfile_job_is_fresh(path, yaml);
}

/// An update keeps what is known of the runs of a job that was there before,
/// takes everything else from the job file, an error or the lack of one
/// included, and leaves every other job alone.
pub proof fn update_keeps_runs(config: ConfigView, path: Seq<char>, new_job: JobView)
    requires
        config.jobs.contains_key(path),
        config.jobs[path].name.len() > 0,
    ensures
        ({
            let was = config.jobs[path];
            let after = config.with_update_begun(path).with_update_ended(path, new_job);
            let now = after.jobs[path];
            &&& now.running == was.running && now.history == was.history
            &&& now.laststart == was.laststart && now.lastrun == was.lastrun
            &&& now.name == new_job.name && now.command == new_job.command
            &&& now.schedule == new_job.schedule && now.error == new_job.error
            &&& forall|k: Seq<char>|
                k != path ==> (after.jobs.contains_key(k) <==> #[trigger] config.jobs.contains_key(
                    k,
                )) && (config.jobs.contains_key(k) ==> after.jobs[k] == config.jobs[k])
        }),
{
}

/// A job that was started is not started a second time while it runs: another
/// request only counts, and leaves its start as it is.
pub proof fn running_job_is_not_started(config: ConfigView, job: JobView, again: JobView)
    requires
        config.jobs.contains_key(job.path),
        config.may_start(job.path),
        again.path == job.path,
    ensures
        ({
            let started = config.with_request(job);
            let asked = started.with_request(again);
            &&& !started.may_start(job.path)
            &&& started.jobs[job.path].skipped == 0
            &&& !asked.may_start(job.path)
            &&& asked.jobs[job.path].skipped == 1
            &&& asked.jobs[job.path].laststart == job.laststart
        }),
{
}

/// A job whose run is over may start again, and its count of requests that
/// were passed over starts anew with it.
pub proof fn settled_job_may_start(config: ConfigView, path: Seq<char>, update: JobView, job: JobView)
    requires
        config.jobs.contains_key(path),
        job.path == path,
    ensures
        ({
            let after = config.with_job(path, settled(config.jobs[path], update));
            &&& after.may_start(path)
            &&& after.jobs[path].skipped == config.jobs[path].skipped
            &&& after.with_request(job).jobs[path].skipped == 0
        }),
{
}

/// Checking the jobs a second time changes nothing.
pub proof fn check_is_stable(config: ConfigView)
    ensures
        config.with_jobs_checked().with_jobs_checked() == config.with_jobs_checked(),
{
    let once = config.with_jobs_checked();
    let twice = once.with_jobs_checked();
    assert forall|j: JobView| missing(j, once.jobs) == #[trigger] missing(j, config.jobs) by {
        assert((|p: Seq<char>| !once.jobs.contains_key(p)) =~= (|p: Seq<char>|
            !config.jobs.contains_key(p)));
    }
    assert forall|k: Seq<char>| #[trigger] once.jobs.contains_key(k) implies twice.jobs[k]
        == once.jobs[k] by {
        let job = config.jobs[k];
        assert(missing(once.jobs[k], config.jobs) == missing(job, config.jobs));
        assert(checked(once.jobs[k], once.jobs) == once.jobs[k]);
    }
    assert(twice.jobs =~= once.jobs);
}

/// A job that waits for a job that does not exist has an error after the
/// check, and one of which every job it waits for exists stays as it is.
pub proof fn check_finds_what_is_missing(config: ConfigView, path: Seq<char>)
    requires
        config.jobs.contains_key(path),
    ensures
        ({
            let job = config.jobs[path];
            let after = config.with_jobs_checked().jobs[path];
            &&& (exists|p: Seq<char>| #[trigger]
                job.schedule.follows(p) && !config.jobs.contains_key(p)) ==> after.error is Some
            &&& (forall|p: Seq<char>| #[trigger]
                job.schedule.follows(p) ==> config.jobs.contains_key(p)) ==> after == job
        }),
{
    let job = config.jobs[path];
    if let ScheduleView::After(paths) = job.schedule {
        let absent = |p: Seq<char>| !config.jobs.contains_key(p);
        let found = paths.filter(absent);
        assert(found == missing(job, config.jobs));
        if exists|p: Seq<char>| #[trigger]
            job.schedule.follows(p) && !config.jobs.contains_key(p) {
            let p = choose|p: Seq<char>| #[trigger]
                job.schedule.follows(p) && !config.jobs.contains_key(p);
            let i = paths.index_of(p);
            assert(absent(paths[i]));
            paths.lemma_filter_contains(absent, i);
        }
        if found.len() > 0 {
            paths.lemma_filter_pred(absent, 0);
            assert(found.contains(found[0]));
            paths.lemma_filter_contains_rev(absent, found[0]);
            assert(job.schedule.follows(found[0]));
        }
    }
}

impl Stage {
    /// How many steps of a run are left at most.
    pub open spec fn steps_left(self) -> int {
        match self {
            Stage::Locating => 6,
            Stage::Spawning => 5,
            Stage::MakingDir => 4,
            Stage::Running => 3,
            Stage::SavingStatus(_) => 2,
            Stage::SavingDuration => 1,
            Stage::Over => 0,
        }
    }
}

/// Every step brings a run nearer to its end, which is when it is reported.
pub proof fn run_comes_to_an_end(run: ExecutionView, event: EventView)
    requires
        run.awaits(event),
    ensures
        run.step(event).0.stage.steps_left() < run.stage.steps_left(),
        run.step(event).0.stage is Over <==> run.step(event).1 is Report,
{
}

impl ExecutionView {
    /// Whether a run is on its way as it should be: there is something to run,
    /// and its start is known once the process has started; a run in the job's
    /// record is over; and once this run is over, either there is an error or
    /// it is in the record.
    pub open spec fn is_sound(self) -> bool {
        &&& self.job.can_run()
        &&& self.job.lastrun matches Some(run) ==> run.is_over()
        &&& match self.stage {
            Stage::Locating | Stage::Spawning => true,
            Stage::MakingDir | Stage::Running => self.job.laststart is Some,
            Stage::SavingStatus(secs) => self.job.lastrun matches Some(run) && run.duration
                == Some(secs) && self.job.laststart == Some(run.start),
            Stage::SavingDuration => self.job.lastrun matches Some(run) && self.job.laststart
                == Some(run.start),
            Stage::Over => !self.job.running && (self.job.error is Some || (
            self.job.lastrun matches Some(run) && self.job.laststart == Some(run.start))),
        }
    }
}

/// A run that begins with an emptied job is on its way as it should be and
/// stays so: what it reports in the end is a job that does not run, with an
/// error or with the run in its record, as a report is taken in.
pub proof fn run_is_recorded(
    job: JobView,
    start: Option<Timestamp>,
    run: ExecutionView,
    event: EventView,
)
    requires
        job.can_run(),
        run.is_sound(),
        run.takes(event),
    ensures
        first_step(JobView { laststart: start, ..job.emptied() }).0.is_sound(),
        run.step(event).0.is_sound(),
{
}

/// A run without an error failed just if its process did not succeed.
pub proof fn failure_is_that_of_the_process(job: JobView, ending: EndingView)
    requires
        job.error is None,
    ensures
        has_failed(job.with_run(ending)) <==> !ending.status.succeeded(),
{
}

/// What is saved of a run that ended can be read again: from its status file
/// the status in the record, and from its duration file the seconds in it.
pub proof fn saved_run_can_be_read(run: ExecutionView, ending: EndingView)
    requires
        run.stage is Running,
        run.job.history,
    ensures
        ({
            let (saving, action) = run.step(EventView::Ended(Ok(ending)));
            let (timing, then) = saving.step(EventView::StatusSaved(true));
            &&& action matches ActionView::SaveStatus(text)
            &&& status_in_file(text) == saving.job.lastrun->0.status
            &&& status_in_file(text) == Some(ending.status)
            &&& then matches ActionView::SaveDuration(secs)
            &&& unsigned_of(secs) == timing.job.lastrun->0.duration
        }),
{
    status_file_round_trip(ending.status);
    unsigned_round_trip(ending.secs);
}

/// A run that was saved is listed with its outcome, in words if it failed, with
/// its seconds and with what it wrote, unless it is listed as under way.
pub proof fn saved_run_is_listed(entry: RunEntryView, ending: EndingView, running: Option<Seq<char>>)
    requires
        running != Some(entry.name),
        entry.status == Some(ending.status),
        entry.duration == Some(decimal(ending.secs as nat)),
    ensures
        record_of(entry, running).status == if ending.status.succeeded() {
            "OK"@
        } else {
            "Failure"@
        },
        record_of(entry, running).statustext == if ending.status.succeeded() {
            Seq::<char>::empty()
        } else {
            entry.status_words
        },
        record_of(entry, running).duration == Some(ending.secs),
        record_of(entry, running).log == entry.log,
        record_of(entry, running).err == entry.err,
{
    unsigned_round_trip(ending.secs);
}

/// The run of a job that was started is listed as under way: the directory
/// that it makes has the name by which the list knows it.
pub proof fn started_run_is_listed_as_running(config: ConfigView, job: JobView, entry: RunEntryView)
    requires
        config.jobs.contains_key(job.path),
        config.may_start(job.path),
        job.laststart is Some,
        ({
            let run = ExecutionView { job: JobView { running: true, ..job }, stage: Stage::Spawning };
            run.step(EventView::Spawned(Ok(()))).1 == ActionView::MakeDir(entry.name)
        }),
    ensures
        ({
            let running = config.with_request(job).running_name(job.path);
            record_of(entry, running).status == "Running"@
        }),
{
}

/// A feed sends how the run ended as the last thing, and is over with it; it
/// sends every piece of output that it reads, and ends only so or when no more
/// changes come.
pub proof fn feed_ends_with_the_status(stage: FeedStage, event: FeedEventView)
    requires
        stage.awaits(event),
    ensures
        event is Status <==> (stage.sent(event) matches Some(piece) && piece.field == "status"@),
        event is Status ==> stage is ReadingStatus && stage.next(event) is Over,
        event is Read ==> stage.sent(event) is Some,
        stage.next(event) is Over <==> event is Status || event is Unwatched,
{
    reveal_strlit("status");
    reveal_strlit("stdout");
    reveal_strlit("stderr");
    assert("status"@[3] != "stdout"@[3] && "status"@[3] != "stderr"@[3]);
}

/// Before a feed follows the changes, it has read the whole standard output
/// and then the whole standard error.
pub proof fn feed_starts_with_both_outputs(bytes: Seq<u8>)
    ensures
        ({
            let out = FeedStage::ReadingOut(true);
            &&& out.next(FeedEventView::Read(bytes)) == out
            &&& out.next(FeedEventView::Drained) == FeedStage::ReadingErr
            &&& FeedStage::ReadingErr.next(FeedEventView::Read(bytes)) == FeedStage::ReadingErr
            &&& FeedStage::ReadingErr.next(FeedEventView::Drained) == FeedStage::Waiting
        }),
{
}

/// Whether texts are words: none is empty, and none has whitespace in it.
pub open spec fn are_words(words: Seq<Seq<char>>) -> bool {
    forall|i: int|
        0 <= i < words.len() ==> (#[trigger] words[i]).len() > 0 && word_len(words[i])
            == words[i].len()
}

proof fn lemma_word_alone(s: Seq<char>, n: int)
    requires
        0 <= n <= word_len(s),
    ensures
        n <= s.len(),
        word_len(s.take(n)) == n,
    decreases n,
{
    lemma_word_len_bound(s);
    if n > 0 {
        lemma_word_alone(s.skip(1), n - 1);
        assert(s.take(n).skip(1) == s.skip(1).take(n - 1));
    }
}

proof fn lemma_words_are_words(s: Seq<char>)
    ensures
        are_words(words_of(s)),
    decreases s.len(),
{
    if s.len() > 0 {
        if is_space(s[0]) {
            lemma_words_are_words(s.skip(1));
        } else {
            let n = word_len(s) as int;
            lemma_word_len_bound(s);
            lemma_word_alone(s, n);
            lemma_words_are_words(s.skip(n));
            let rest = words_of(s.skip(n));
            assert forall|i: int| 0 <= i < words_of(s).len() implies (#[trigger] words_of(s)[i]).len()
                > 0 && word_len(words_of(s)[i]) == words_of(s)[i].len() by {
                if i > 0 {
                    assert(words_of(s)[i] == rest[i - 1]);
                }
            }
        }
    }
}

proof fn lemma_word_in_front(w: Seq<char>, rest: Seq<char>)
    requires
        word_len(w) == w.len(),
        rest.len() == 0 || is_space(rest[0]),
    ensures
        word_len(w + rest) == w.len(),
    decreases w.len(),
{
    if w.len() > 0 {
        assert((w + rest).skip(1) == w.skip(1) + rest);
        lemma_word_in_front(w.skip(1), rest);
    } else {
        assert(w + rest == rest);
    }
}

proof fn lemma_first_word(w: Seq<char>, rest: Seq<char>)
    requires
        w.len() > 0,
        word_len(w) == w.len(),
        rest.len() == 0 || is_space(rest[0]),
    ensures
        words_of(w + rest) == seq![w] + words_of(rest),
{
    lemma_word_in_front(w, rest);
    assert((w + rest).take(w.len() as int) == w);
    assert((w + rest).skip(w.len() as int) == rest);
    assert((w + rest)[0] == w[0]);
}

proof fn lemma_spaced_from_the_front(parts: Seq<Seq<char>>)
    requires
        parts.len() >= 2,
    ensures
        spaced(parts) == parts[0] + (seq![' '] + spaced(parts.skip(1))),
    decreases parts.len(),
{
    let last = parts.last();
    if parts.len() == 2 {
        assert(parts.drop_last().len() == 1 && parts.drop_last()[0] == parts[0]);
        assert(parts.skip(1).len() == 1 && parts.skip(1)[0] == last);
        assert(spaced(parts.drop_last()) == parts[0]);
        assert(spaced(parts.skip(1)) == last);
    } else {
        lemma_spaced_from_the_front(parts.drop_last());
        assert(parts.drop_last().skip(1) == parts.skip(1).drop_last());
        assert(parts.skip(1).last() == last);
    }
    assert(spaced(parts) == parts[0] + (seq![' '] + spaced(parts.skip(1))));
}

/// Words with a space between each two are split into the same words again.
pub proof fn spaced_words_split_again(words: Seq<Seq<char>>)
    requires
        are_words(words),
    ensures
        words_of(spaced(words)) == words,
    decreases words.len(),
{
    if words.len() == 1 {
        lemma_first_word(words[0], Seq::empty());
        assert(words[0] + Seq::<char>::empty() == words[0]);
        assert(words == seq![words[0]] + words_of(Seq::empty()));
    } else if words.len() > 1 {
        let rest = words.skip(1);
        let tail = seq![' '] + spaced(rest);
        lemma_spaced_from_the_front(words);
        assert forall|i: int| 0 <= i < rest.len() implies (#[trigger] rest[i]).len() > 0 && word_len(
            rest[i],
        ) == rest[i].len() by {
            assert(rest[i] == words[i + 1]);
        }
        spaced_words_split_again(rest);
        assert(is_space(' '));
        lemma_first_word(words[0], tail);
        assert(tail.skip(1) == spaced(rest));
        assert(words == seq![words[0]] + rest);
    }
}

/// The jobs that a job waits for, as they are shown, can be read again: put
/// behind the word `after`, they are the same schedule.
pub proof fn shown_after_reads_back(
    expr: Seq<char>,
    refusal: Option<Seq<char>>,
    paths: Seq<Seq<char>>,
)
    requires
        words_of(expr).len() > 0,
        schedule_of(expr, refusal) == Ok::<ScheduleView, Seq<char>>(ScheduleView::After(paths)),
    ensures
        schedule_of("after "@ + spaced(paths), refusal) == Ok::<ScheduleView, Seq<char>>(
            ScheduleView::After(paths),
        ),
{
    let words = words_of(expr);
    lemma_words_are_words(expr);
    assert(paths == words.skip(1));
    spaced_words_split_again(words);
    reveal_strlit("after ");
    reveal_strlit("after");
    reveal_strlit("continuous");
    lemma_spaced_from_the_front(words);
    assert("after "@ + spaced(paths) == "after"@ + (seq![' '] + spaced(paths)));
}

proof fn lemma_ascending_is_unique(x: Seq<Seq<u8>>, y: Seq<Seq<u8>>)
    requires
        is_ascending(x),
        is_ascending(y),
        x.to_multiset() == y.to_multiset(),
    ensures
        x == y,
{
    let le = |a: Seq<u8>, b: Seq<u8>| bytes_le(a, b);
    assert forall|a: Seq<u8>| #[trigger] le(a, a) by {
        bytes_le_reflexive(a);
    }
    assert forall|a: Seq<u8>, b: Seq<u8>| #[trigger] le(a, b) && #[trigger] le(b, a) implies a
        == b by {
        bytes_le_antisymmetric(a, b);
    }
    assert forall|a: Seq<u8>, b: Seq<u8>, c: Seq<u8>| #[trigger]
        le(a, b) && #[trigger] le(b, c) implies le(a, c) by {
        bytes_le_transitive(a, b, c);
    }
    assert forall|a: Seq<u8>, b: Seq<u8>| #[trigger] le(a, b) || #[trigger] le(b, a) by {
        bytes_le_total(a, b);
    }
    vstd::seq_lib::lemma_sorted_unique(x, y, le);
}

/// There is just one way to split runs as they should be.
pub proof fn prune_plan_is_unique(
    names: Seq<Seq<u8>>,
    limit: nat,
    remove: Seq<Seq<u8>>,
    keep: Seq<Seq<u8>>,
    other_remove: Seq<Seq<u8>>,
    other_keep: Seq<Seq<u8>>,
)
    requires
        is_prune_plan(names, limit as int, remove, keep),
        is_prune_plan(names, limit as int, other_remove, other_keep),
    ensures
        remove == other_remove,
        keep == other_keep,
{
    lemma_ascending_is_unique(remove + keep, other_remove + other_keep);
    let n = remove.len() as int;
    assert((remove + keep).len() == (other_remove + other_keep).len());
    assert(remove == (remove + keep).take(n));
    assert(other_remove == (other_remove + other_keep).take(n));
    assert(keep == (remove + keep).skip(n));
    assert(other_keep == (other_remove + other_keep).skip(n));
}

/// No run that is kept comes before one that is removed; and once runs were
/// removed, nothing is left to remove.
pub proof fn prune_keeps_the_last(
    names: Seq<Seq<u8>>,
    limit: nat,
    remove: Seq<Seq<u8>>,
    keep: Seq<Seq<u8>>,
)
    requires
        is_prune_plan(names, limit as int, remove, keep),
    ensures
        forall|i: int, j: int|
            0 <= i < remove.len() && 0 <= j < keep.len() ==> bytes_le(
                #[trigger] remove[i],
                #[trigger] keep[j],
            ),
        is_prune_plan(keep, limit as int, seq![], keep),
{
    let all = remove + keep;
    assert forall|i: int, j: int| 0 <= i < remove.len() && 0 <= j < keep.len() implies bytes_le(
        #[trigger] remove[i],
        #[trigger] keep[j],
    ) by {
        assert(all[i] == remove[i]);
        assert(all[remove.len() + j] == keep[j]);
    }
    assert(Seq::<Seq<u8>>::empty() + keep == keep);
    assert forall|i: int, j: int| 0 <= i < j < keep.len() implies bytes_le(
        #[trigger] keep[i],
        #[trigger] keep[j],
    ) by {
        assert(all[remove.len() + i] == keep[i]);
        assert(all[remove.len() + j] == keep[j]);
    }
}

proof fn lemma_all_places(keys: Seq<Seq<u8>>, places: Seq<usize>, p: usize)
    requires
        is_sorted_order(keys, places),
        p < keys.len(),
    ensures
        places.contains(p),
{
    let ints = places.map_values(|q: usize| q as int);
    assert(ints.no_duplicates());
    ints.unique_seq_to_set();
    let range = vstd::set_lib::set_int_range(0, keys.len() as int);
    vstd::set_lib::lemma_int_range(0, keys.len() as int);
    vstd::seq_lib::seq_to_set_is_finite(ints);
    assert forall|q: int| ints.to_set().contains(q) implies range.contains(q) by {
        let i = ints.index_of(q);
        assert(ints[i] == places[i] as int);
    }
    vstd::set_lib::lemma_subset_equality(ints.to_set(), range);
    assert(range.contains(p as int));
    let i = ints.index_of(p as int);
    assert(places[i] == p);
}

/// There is just one order by name in which equal names keep theirs, so the
/// list of the runs of a job is determined by what is found on disk.
pub proof fn sorted_order_is_unique(keys: Seq<Seq<u8>>, places: Seq<usize>, others: Seq<usize>)
    requires
        is_sorted_order(keys, places),
        is_sorted_order(keys, others),
    ensures
        places == others,
{
    lemma_same_places(keys, places, others, keys.len() as int);
    assert(places.take(keys.len() as int) == places);
    assert(others.take(keys.len() as int) == others);
}

proof fn lemma_same_places(keys: Seq<Seq<u8>>, places: Seq<usize>, others: Seq<usize>, n: int)
    requires
        is_sorted_order(keys, places),
        is_sorted_order(keys, others),
        0 <= n <= keys.len(),
    ensures
        places.take(n) == others.take(n),
    decreases n,
{
    if n > 0 {
        lemma_same_places(keys, places, others, n - 1);
        let a = places[n - 1];
        let b = others[n - 1];
        if a != b {
            lemma_all_places(keys, others, a);
            lemma_all_places(keys, places, b);
            let j = others.index_of(a);
            let k = places.index_of(b);
            assert(j >= n) by {
                if j < n - 1 {
                    assert(others.take(n - 1)[j] == places.take(n - 1)[j]);
                    assert(places[j] == a);
                }
            }
            assert(k >= n) by {
                if k < n - 1 {
                    assert(others.take(n - 1)[k] == places.take(n - 1)[k]);
                    assert(others[k] == b);
                }
            }
            assert(bytes_le(keys[places[n - 1] as int], keys[places[k] as int]));
            assert(bytes_le(keys[others[n - 1] as int], keys[others[j] as int]));
            bytes_le_antisymmetric(keys[a as int], keys[b as int]);
            assert(false);
        }
        assert(places.take(n) == places.take(n - 1).push(a));
        assert(others.take(n) == others.take(n - 1).push(b));
    }
}

} // verus!
