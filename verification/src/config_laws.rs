//! What holds of the runner's state, of reports and of the next starts.

use crate::clock::Timestamp;
use crate::config::{
    checked, complaints, env_is_text, env_view, jobs_view, missing, pair_texts, reloaded,
    settings_are_readable, settings_of, with_entries, Config, ConfigView, Settings,
};
use crate::control::{followers, has_failed, is_prune_plan, job_at, settled};
use crate::job::JobView;
use crate::order::bytes_le;
use crate::outside::yaml_documents;
use crate::path::same_path;
use crate::run::RunView;
use crate::runner::{earliest, starting};
use crate::schedule::{cron_answered, ScheduleView};
use crate::table::{lemma_filter_out_none, lemma_filter_out_one, without};
use crate::text::opt_text;
use crate::yaml::DocumentView;
use vstd::prelude::*;

verus! {

/// Models of the runner's state leave out nothing that shows.
pub proof fn config_views_are_whole(config: Config, settings: Settings, pairs: Seq<(String, String)>)
    ensures
        config@.dir == config.dir@,
        config@.order == config.jobs.keys(),
        config@.jobs == jobs_view(config.jobs@),
        forall|k: Seq<char>| #[trigger]
            config@.jobs.contains_key(k) <==> config.jobs@.contains_key(k),
        forall|k: Seq<char>| #[trigger]
            config.jobs@.contains_key(k) ==> config@.jobs[k] == config.jobs@[k]@,
        config@.env == env_view(config.env@),
        forall|k: Seq<char>| #[trigger] config@.env.contains_key(k) <==> config.env@.contains_key(k),
        forall|k: Seq<char>| #[trigger]
            config.env@.contains_key(k) ==> config@.env[k] == config.env@[k]@,
        config@.http == opt_text(config.http),
        config@.prune == config.prune,
        settings@.env == pair_texts(settings.env@),
        settings@.http == opt_text(settings.http),
        pair_texts(pairs).len() == pairs.len(),
        forall|i: int|
            0 <= i < pairs.len() ==> #[trigger] pair_texts(pairs)[i] == (pairs[i].0@, pairs[i].1@),
{
}

/// A configuration file sets every entry of its environment, in order, and its
/// address. It can be read unless it has no document or an environment with
/// something in it that is no text.
pub proof fn settings_are_what_the_file_says(doc: DocumentView, yaml: Seq<char>)
    ensures
        settings_of(doc).http == doc.text_at("http"@),
        doc.table_at("env"@) is None ==> settings_of(doc).env.len() == 0 && env_is_text(doc),
        doc.table_at("env"@) matches Some(table) ==> {
            &&& settings_of(doc).env.len() == table.len()
            &&& env_is_text(doc) <==> forall|i: int|
                0 <= i < table.len() ==> (#[trigger] table[i]).0 is Some && table[i].1 is Some
            &&& env_is_text(doc) ==> forall|i: int|
                0 <= i < table.len() ==> Some((#[trigger] settings_of(doc).env[i]).0) == table[i].0
                    && Some(settings_of(doc).env[i].1) == table[i].1
        },
        match yaml_documents(yaml) {
            Ok(docs) => settings_are_readable(yaml) <==> docs.len() > 0 && env_is_text(docs[0]),
            Err(_) => settings_are_readable(yaml),
        },
{
    if let Some(table) = doc.table_at("env"@) {
        if env_is_text(doc) {
            assert forall|i: int| 0 <= i < table.len() implies Some(
                (#[trigger] settings_of(doc).env[i]).0,
            ) == table[i].0 && Some(settings_of(doc).env[i].1) == table[i].1 by {
                assert(table[i].0 is Some && table[i].1 is Some);
            }
        }
    }
}

/// In an environment stands, under each name, the last value that was put
/// there, and what was there before if none was.
pub proof fn last_entry_wins(
    env: Map<Seq<char>, Seq<char>>,
    entries: Seq<(Seq<char>, Seq<char>)>,
    key: Seq<char>,
    i: int,
)
    requires
        -1 <= i < entries.len(),
        i >= 0 ==> entries[i].0 == key,
        forall|j: int| i < j < entries.len() ==> (#[trigger] entries[j]).0 != key,
    ensures
        i >= 0 ==> with_entries(env, entries).contains_key(key) && with_entries(env, entries)[key]
            == entries[i].1,
        i == -1 ==> (with_entries(env, entries).contains_key(key) <==> env.contains_key(key)),
        i == -1 && env.contains_key(key) ==> with_entries(env, entries)[key] == env[key],
    decreases entries.len(),
{
    if entries.len() > 0 && i < entries.len() - 1 {
        let first = entries.drop_last();
        assert(entries[entries.len() - 1].0 != key);
        assert forall|j: int| i < j < first.len() implies (#[trigger] first[j]).0 != key by {
            assert(first[j] == entries[j]);
        }
        last_entry_wins(env, first, key, i);
    }
}

/// The jobs that a job waits for in vain are those that it names and that do
/// not exist, each as often as it names it and in that order; a job that waits
/// for none has none.
pub proof fn missing_jobs_are_named_and_absent(
    job: JobView,
    jobs: Map<Seq<char>, JobView>,
    paths: Seq<Seq<char>>,
    path: Seq<char>,
)
    ensures
        !(job.schedule is After) ==> missing(job, jobs).len() == 0,
        ({
            let now = missing(JobView { schedule: ScheduleView::After(paths), ..job }, jobs);
            let more = missing(
                JobView { schedule: ScheduleView::After(paths.push(path)), ..job },
                jobs,
            );
            &&& jobs.contains_key(path) ==> more == now
            &&& !jobs.contains_key(path) ==> more == now.push(path)
            &&& paths.len() == 0 ==> now.len() == 0
        }),
{
    reveal(Seq::filter);
    assert(paths.push(path).drop_last() == paths);
    let absent = |p: Seq<char>| !jobs.contains_key(p);
    assert(paths.push(path).filter(absent) == if absent(path) {
        paths.filter(absent).push(path)
    } else {
        paths.filter(absent)
    });
}

/// The check puts into a job that waits in vain an error that names the last
/// such job, and changes nothing else of it; and nothing at all of the others.
pub proof fn check_sets_the_error_alone(job: JobView, jobs: Map<Seq<char>, JobView>)
    ensures
        ({
            let after = checked(job, jobs);
            let vain = missing(job, jobs);
            &&& vain.len() == 0 ==> after == job
            &&& vain.len() > 0 ==> after.error == Some(
                "Scheduled after nonexistent job "@ + vain[vain.len() - 1],
            )
            &&& after == (JobView { error: after.error, ..job })
        }),
{
}

/// The check reports, for each job of the walk in turn, its own path with each
/// job that it waits for in vain.
pub proof fn check_reports_what_is_missing(
    order: Seq<Seq<char>>,
    jobs: Map<Seq<char>, JobView>,
    key: Seq<char>,
)
    ensures
        complaints(Seq::empty(), jobs).len() == 0,
        ({
            let before = complaints(order, jobs);
            let after = complaints(order.push(key), jobs);
            let vain = missing(jobs[key], jobs);
            &&& after.len() == before.len() + vain.len()
            &&& after.take(before.len() as int) == before
            &&& forall|i: int|
                0 <= i < vain.len() ==> after[before.len() + i] == (
                    jobs[key].path,
                    #[trigger] vain[i],
                )
        }),
{
    assert(order.push(key).drop_last() == order);
}

/// Putting a job at a path changes what stands there, makes it the last of the
/// walk if it is new, and leaves everything else as it was.
pub proof fn putting_a_job_leaves_the_rest(config: ConfigView, path: Seq<char>, job: JobView)
    ensures
        ({
            let after = config.with_job(path, job);
            &&& after.jobs.contains_key(path) && after.jobs[path] == job
            &&& forall|k: Seq<char>|
                k != path ==> (#[trigger] after.jobs.contains_key(k) <==> config.jobs.contains_key(
                    k,
                ))
            &&& forall|k: Seq<char>|
                k != path && #[trigger] config.jobs.contains_key(k) ==> after.jobs[k]
                    == config.jobs[k]
            &&& config.jobs.contains_key(path) ==> after.order == config.order
            &&& !config.jobs.contains_key(path) ==> after.order == config.order + seq![path]
            &&& after.dir == config.dir && after.env == config.env
            &&& after.http == config.http && after.prune == config.prune
        }),
{
    assert(config.order.push(path) == config.order + seq![path]);
}

/// Taking out a job takes out that one alone.
pub proof fn removing_a_job_leaves_the_rest(config: ConfigView, path: Seq<char>)
    ensures
        ({
            let after = config.without_job(path);
            &&& !after.jobs.contains_key(path)
            &&& forall|k: Seq<char>|
                k != path ==> (#[trigger] after.jobs.contains_key(k) <==> config.jobs.contains_key(
                    k,
                ))
            &&& forall|k: Seq<char>|
                k != path && #[trigger] config.jobs.contains_key(k) ==> after.jobs[k]
                    == config.jobs[k]
            &&& !config.order.contains(path) ==> after.order == config.order
            &&& config.order.no_duplicates() ==> forall|i: int|
                0 <= i < config.order.len() && #[trigger] config.order[i] == path ==> after.order
                    == config.order.remove(i)
            &&& after.dir == config.dir && after.env == config.env
            &&& after.http == config.http && after.prune == config.prune
        }),
{
    if !config.order.contains(path) {
        lemma_filter_out_none(config.order, path);
    }
    if config.order.no_duplicates() {
        assert forall|i: int|
            0 <= i < config.order.len() && #[trigger] config.order[i] == path implies without(
            config.order,
            path,
        ) == config.order.remove(i) by {
            lemma_filter_out_one(config.order, i);
        }
    }
}

/// The check looks at every job and at nothing else.
pub proof fn check_covers_every_job(config: ConfigView)
    ensures
        ({
            let after = config.with_jobs_checked();
            &&& forall|k: Seq<char>| #[trigger]
                after.jobs.contains_key(k) <==> config.jobs.contains_key(k)
            &&& forall|k: Seq<char>| #[trigger]
                config.jobs.contains_key(k) ==> after.jobs[k] == checked(config.jobs[k], config.jobs)
            &&& after.order == config.order && after.dir == config.dir && after.env == config.env
            &&& after.http == config.http && after.prune == config.prune
        }),
{
}

/// The begin of an update marks the job, and is nothing but a mark to one that
/// is there; where there is none, it puts a blank one there. An update is under
/// way just while the job is marked.
pub proof fn updates_begin_with_a_mark(config: ConfigView, path: Seq<char>)
    ensures
        config.is_updating(path) <==> config.jobs.contains_key(path) && config.jobs[path].update,
        config.with_update_begun(path) == config.with_job(
            path,
            config.with_update_begun(path).jobs[path],
        ),
        config.jobs.contains_key(path) ==> config.with_update_begun(path).jobs[path] == (JobView {
            update: true,
            ..config.jobs[path]
        }),
        !config.jobs.contains_key(path) ==> {
            let new_job = config.with_update_begun(path).jobs[path];
            &&& new_job.update && new_job.name.len() == 0 && new_job.path.len() == 0
            &&& new_job.command.len() == 0 && new_job.schedule is Never && new_job.error is None
            &&& !new_job.running && new_job.lastrun is None && new_job.laststart is None
        },
{
}

/// The end of an update puts the job there that was read. One that was there
/// before, and so has a name, hands down whether it runs, its last start, its
/// last run and whether its runs are kept; nothing else of it stays.
pub proof fn updates_end_with_the_new_job(config: ConfigView, path: Seq<char>, new_job: JobView)
    ensures
        config.with_update_ended(path, new_job) == config.with_job(
            path,
            reloaded(config.jobs[path], new_job),
        ),
        ({
            let was = config.jobs[path];
            let now = reloaded(was, new_job);
            &&& was.name.len() == 0 ==> now == new_job
            &&& was.name.len() > 0 ==> {
                &&& now.running == was.running
                &&& now.laststart == was.laststart
                &&& now.lastrun == was.lastrun
                &&& now.history == was.history
            }
            &&& now.name == new_job.name && now.path == new_job.path
            &&& now.command == new_job.command && now.workdir == new_job.workdir
            &&& now.schedule == new_job.schedule && now.input == new_job.input
            &&& now.error == new_job.error && now.skipped == new_job.skipped
            &&& now.update == new_job.update
        }),
{
}

/// A report is of the last job of the walk that has its path, part by part.
pub proof fn reports_are_of_the_last_such_job(
    order: Seq<Seq<char>>,
    jobs: Map<Seq<char>, JobView>,
    path: Seq<char>,
    key: Seq<char>,
)
    ensures
        job_at(Seq::empty(), jobs, path) is None,
        job_at(order.push(key), jobs, path) == if same_path(jobs[key].path, path) {
            Some(key)
        } else {
            job_at(order, jobs, path)
        },
{
    assert(order.push(key).drop_last() == order);
}

/// A run has failed just if it is reported with an error, or with a status
/// word other than zero.
pub proof fn failure_is_an_error_or_a_status(update: JobView)
    ensures
        update.error is Some ==> has_failed(update),
        update.error is None && update.lastrun is None ==> !has_failed(update),
        update.error is None && update.lastrun is Some ==> (has_failed(update)
            <==> update.lastrun->0.status->0.raw != 0),
{
}

/// After a report the job no longer runs, and whether its runs are kept is as
/// reported. A run in the report becomes its last run, and the start in the
/// report its last start, however the run went; without one, both stay. An error
/// in the report becomes its error; without one, that stays. Nothing else of it
/// changes.
pub proof fn reports_are_recorded(job: JobView, update: JobView)
    ensures
        ({
            let after = settled(job, update);
            &&& !after.running
            &&& after.history == update.history
            &&& update.lastrun is Some ==> after.lastrun == update.lastrun && after.laststart
                == update.laststart
            &&& update.lastrun is None ==> after.lastrun == job.lastrun && after.laststart
                == job.laststart
            &&& update.error is Some ==> after.error == update.error
            &&& update.error is None ==> after.error == job.error
            &&& after.name == job.name && after.path == job.path
            &&& after.command == job.command && after.workdir == job.workdir
            &&& after.schedule == job.schedule && after.input == job.input
            &&& after.skipped == job.skipped && after.update == job.update
        }),
{
}

/// A failed run is recorded as well as one that succeeded: two reports that
/// differ in the status of their runs alone leave jobs that differ in that alone.
pub proof fn failures_are_recorded_like_successes(job: JobView, update: JobView, other: RunView)
    requires
        update.lastrun is Some,
    ensures
        settled(job, JobView { lastrun: Some(other), ..update }) == (JobView {
            lastrun: Some(other),
            ..settled(job, update)
        }),
{
}

/// Whether jobs are those at some places of a walk, in that order.
pub open spec fn are_at(
    found: Seq<JobView>,
    places: Seq<int>,
    order: Seq<Seq<char>>,
    jobs: Map<Seq<char>, JobView>,
    starts: Seq<Option<Timestamp>>,
) -> bool {
    &&& found.len() == places.len()
    &&& forall|i: int, j: int|
        0 <= i < j < places.len() ==> #[trigger] places[i] < #[trigger] places[j]
    &&& forall|j: int|
        0 <= j < places.len() ==> {
            let p = #[trigger] places[j];
            &&& 0 <= p < order.len()
            &&& found[j] == (JobView { laststart: starts[p], ..jobs[order[p]].emptied() })
        }
}

proof fn lemma_followers_places(
    order: Seq<Seq<char>>,
    jobs: Map<Seq<char>, JobView>,
    path: Seq<char>,
    n: int,
) -> (places: Seq<int>)
    requires
        0 <= n <= order.len(),
    ensures
        are_at(
            followers(order.take(n), jobs, path),
            places,
            order,
            jobs,
            Seq::new(order.len(), |i: int| None),
        ),
        forall|j: int| 0 <= j < places.len() ==> 0 <= #[trigger] places[j] < n,
        forall|i: int|
            0 <= i < n ==> (jobs[#[trigger] order[i]].schedule.follows(path) <==> places.contains(
                i,
            )),
    decreases n,
{
    let none: Seq<Option<Timestamp>> = Seq::new(order.len(), |i: int| None);
    if n == 0 {
        assert(order.take(0) == Seq::<Seq<char>>::empty());
        Seq::empty()
    } else {
        let before = lemma_followers_places(order, jobs, path, n - 1);
        assert(order.take(n).drop_last() == order.take(n - 1));
        assert(order.take(n).last() == order[n - 1]);
        let job = jobs[order[n - 1]];
        let places = if job.schedule.follows(path) {
            before.push(n - 1)
        } else {
            before
        };
        let found = followers(order.take(n), jobs, path);
        assert forall|j: int| 0 <= j < places.len() implies {
            let p = #[trigger] places[j];
            &&& 0 <= p < order.len()
            &&& found[j] == (JobView { laststart: none[p], ..jobs[order[p]].emptied() })
        } by {
            if j < before.len() {
                assert(places[j] == before[j]);
            }
        }
        assert forall|i: int, j: int| 0 <= i < j < places.len() implies #[trigger] places[i]
            < #[trigger] places[j] by {
            assert(places[i] == before[i]);
            if j < before.len() {
                assert(places[j] == before[j]);
            }
        }
        assert forall|i: int| 0 <= i < n implies (jobs[#[trigger] order[i]].schedule.follows(path)
            <==> places.contains(i)) by {
            if before.contains(i) {
                assert(places[before.index_of(i)] == i);
            }
            if places.contains(i) && i < n - 1 {
                assert(before[places.index_of(i)] == i);
            }
            if i == n - 1 {
                if job.schedule.follows(path) {
                    assert(places[before.len() as int] == i);
                } else if places.contains(i) {
                    assert(before[places.index_of(i)] == i);
                }
            }
        }
        places
    }
}

/// The jobs that go on after a run are those whose schedule names its path,
/// each once and in the order of the walk, emptied and without a start.
pub proof fn those_that_name_the_job_go_on(
    order: Seq<Seq<char>>,
    jobs: Map<Seq<char>, JobView>,
    path: Seq<char>,
) -> (places: Seq<int>)
    ensures
        are_at(
            followers(order, jobs, path),
            places,
            order,
            jobs,
            Seq::new(order.len(), |i: int| None),
        ),
        forall|i: int|
            0 <= i < order.len() ==> (places.contains(i) <==> (
            jobs[#[trigger] order[i]].schedule matches ScheduleView::After(paths)
                && paths.contains(path))),
{
    let n = order.len() as int;
    assert(order.take(n) == order);
    lemma_followers_places(order, jobs, path, n)
}

/// Of runs, by name, those that come last in a dictionary are kept, up to the
/// limit; all others are removed, in order.
pub proof fn pruning_keeps_the_last_up_to_the_limit(
    names: Seq<Seq<u8>>,
    limit: int,
    remove: Seq<Seq<u8>>,
    keep: Seq<Seq<u8>>,
)
    requires
        limit >= 0,
        is_prune_plan(names, limit, remove, keep),
    ensures
        names.len() <= limit ==> remove.len() == 0 && keep.len() == names.len(),
        names.len() > limit ==> keep.len() == limit && remove.len() == names.len() - limit,
        (remove + keep).to_multiset() == names.to_multiset(),
        forall|i: int, j: int|
            0 <= i < remove.len() && 0 <= j < keep.len() ==> bytes_le(
                #[trigger] remove[i],
                #[trigger] keep[j],
            ),
        forall|i: int, j: int|
            0 <= i < j < remove.len() ==> bytes_le(#[trigger] remove[i], #[trigger] remove[j]),
{
    let all = remove + keep;
    vstd::seq_lib::to_multiset_len(all);
    vstd::seq_lib::to_multiset_len(names);
    assert forall|i: int, j: int| 0 <= i < remove.len() && 0 <= j < keep.len() implies bytes_le(
        #[trigger] remove[i],
        #[trigger] keep[j],
    ) by {
        assert(all[i] == remove[i]);
        assert(all[remove.len() + j] == keep[j]);
    }
    assert forall|i: int, j: int| 0 <= i < j < remove.len() implies bytes_le(
        #[trigger] remove[i],
        #[trigger] remove[j],
    ) by {
        assert(all[i] == remove[i] && all[j] == remove[j]);
    }
}

/// A job may start unless it is there and runs. Asked to start, it is marked as
/// running since the start in the request, with nothing passed over; one that
/// runs is only counted once more; one that is not there leaves no trace.
/// Nothing else of it changes.
pub proof fn requests_start_what_does_not_run(config: ConfigView, job: JobView)
    ensures
        config.may_start(job.path) <==> !config.jobs.contains_key(job.path)
            || !config.jobs[job.path].running,
        !config.jobs.contains_key(job.path) ==> config.with_request(job) == config,
        config.jobs.contains_key(job.path) ==> {
            let was = config.jobs[job.path];
            let now = config.with_request(job).jobs[job.path];
            &&& config.with_request(job) == config.with_job(job.path, now)
            &&& !was.running ==> now == (JobView {
                running: true,
                laststart: job.laststart,
                skipped: 0,
                ..was
            })
            &&& was.running && was.skipped < usize::MAX ==> now.skipped == was.skipped + 1 && now
                == (JobView { skipped: now.skipped, ..was })
        },
{
}

/// To be passed over adds one to the count of a job and changes nothing else.
pub proof fn skips_are_counted(config: ConfigView, path: Seq<char>)
    requires
        config.jobs.contains_key(path),
        config.jobs[path].skipped < usize::MAX,
    ensures
        config.next_skip(path) == config.jobs[path].skipped + 1,
        config.with_skip(path).jobs[path].skipped == config.jobs[path].skipped + 1,
        config.with_skip(path).jobs[path] == (JobView {
            skipped: config.with_skip(path).jobs[path].skipped,
            ..config.jobs[path]
        }),
        config.with_skip(path) == config.with_job(path, config.with_skip(path).jobs[path]),
{
}

/// The next instants of the jobs are asked for job by job: for every job of the
/// walk, whatever its runs so far, what its own schedule gave, which is what
/// `cron` answered for the expression if it has one.
pub proof fn every_job_is_asked_for_its_next_start(
    config: ConfigView,
    upcoming: Seq<Option<Timestamp>>,
    i: int,
)
    requires
        0 <= i < config.order.len(),
    ensures
        config.gave(upcoming) || config.allows(upcoming) ==> upcoming.len() == config.order.len(),
        config.gave(upcoming) ==> match config.jobs[config.order[i]].schedule {
            ScheduleView::Schedule(expr) => cron_answered(expr, upcoming[i]),
            _ => upcoming[i] is None,
        },
        config.allows(upcoming) ==> (upcoming[i] matches Some(t)
            ==> config.jobs[config.order[i]].schedule.includes(t) && t.spec_nanos() == 0),
{
}

proof fn lemma_earliest_of(
    config: ConfigView,
    upcoming: Seq<Option<Timestamp>>,
    horizon: int,
    n: int,
)
    requires
        0 <= n <= config.order.len() == upcoming.len(),
    ensures
        ({
            let wake = earliest(config, upcoming, horizon, n);
            &&& wake <= horizon
            &&& forall|i: int|
                0 <= i < n && config.jobs[config.order[i]].schedule is Schedule
                    && #[trigger] upcoming[i] is Some ==> wake <= upcoming[i]->0.instant()
            &&& wake == horizon || exists|i: int|
                0 <= i < n && config.jobs[config.order[i]].schedule is Schedule
                    && #[trigger] upcoming[i] is Some && upcoming[i]->0.instant() == wake
        }),
    decreases n,
{
    if n > 0 {
        lemma_earliest_of(config, upcoming, horizon, n - 1);
        let before = earliest(config, upcoming, horizon, n - 1);
        let wake = earliest(config, upcoming, horizon, n);
        if wake == before && before != horizon {
            let i = choose|i: int|
                0 <= i < n - 1 && config.jobs[config.order[i]].schedule is Schedule
                    && #[trigger] upcoming[i] is Some && upcoming[i]->0.instant() == before;
            assert(upcoming[i] is Some && upcoming[i]->0.instant() == wake);
        }
        assert(upcoming[n - 1] is Some || upcoming[n - 1] is None);
    } else {
        assert(earliest(config, upcoming, horizon, 0) == horizon);
    }
}

proof fn lemma_starting_places(
    config: ConfigView,
    upcoming: Seq<Option<Timestamp>>,
    instant: int,
    n: int,
) -> (places: Seq<int>)
    requires
        0 <= n <= config.order.len() == upcoming.len(),
    ensures
        are_at(
            starting(config, upcoming, instant, n),
            places,
            config.order,
            config.jobs,
            upcoming,
        ),
        forall|j: int| 0 <= j < places.len() ==> 0 <= #[trigger] places[j] < n,
        forall|i: int|
            0 <= i < n ==> (places.contains(i) <==> config.jobs[config.order[i]].schedule is Schedule
                && #[trigger] upcoming[i] is Some && upcoming[i]->0.instant() == instant),
    decreases n,
{
    if n == 0 {
        assert(starting(config, upcoming, instant, 0) == Seq::<JobView>::empty());
        Seq::empty()
    } else {
        let before = lemma_starting_places(config, upcoming, instant, n - 1);
        let due = config.jobs[config.order[n - 1]].schedule is Schedule && upcoming[n - 1] is Some
            && upcoming[n - 1]->0.instant() == instant;
        let places = if due {
            before.push(n - 1)
        } else {
            before
        };
        let found = starting(config, upcoming, instant, n);
        assert forall|j: int| 0 <= j < places.len() implies {
            let p = #[trigger] places[j];
            &&& 0 <= p < config.order.len()
            &&& found[j] == (JobView {
                laststart: upcoming[p],
                ..config.jobs[config.order[p]].emptied()
            })
        } by {
            if j < before.len() {
                assert(places[j] == before[j]);
            }
        }
        assert forall|i: int, j: int| 0 <= i < j < places.len() implies #[trigger] places[i]
            < #[trigger] places[j] by {
            assert(places[i] == before[i]);
            if j < before.len() {
                assert(places[j] == before[j]);
            }
        }
        assert forall|i: int| 0 <= i < n implies (places.contains(i)
            <==> config.jobs[config.order[i]].schedule is Schedule && #[trigger] upcoming[i] is Some
            && upcoming[i]->0.instant() == instant) by {
            if before.contains(i) {
                assert(places[before.index_of(i)] == i);
            }
            if places.contains(i) && i < n - 1 {
                assert(before[places.index_of(i)] == i);
            }
            if i == n - 1 {
                if due {
                    assert(places[before.len() as int] == i);
                } else if places.contains(i) {
                    assert(before[places.index_of(i)] == i);
                }
            }
        }
        places
    }
}

/// The runner wakes up at its horizon, or at the earliest of the next instants
/// of the jobs with a cron expression if one comes before. It then starts every
/// job with a cron expression whose next instant has come, whatever its runs so
/// far, each once and in the order of the walk, with that instant as its start;
/// and it starts no other job.
pub proof fn due_jobs_start(
    config: ConfigView,
    upcoming: Seq<Option<Timestamp>>,
    horizon: int,
) -> (places: Seq<int>)
    requires
        upcoming.len() == config.order.len(),
    ensures
        ({
            let n = config.order.len() as int;
            let wake = earliest(config, upcoming, horizon, n);
            let jobs = starting(config, upcoming, wake, n);
            &&& wake <= horizon
            &&& forall|i: int|
                0 <= i < n && config.jobs[config.order[i]].schedule is Schedule
                    && #[trigger] upcoming[i] is Some ==> wake <= upcoming[i]->0.instant()
            &&& wake == horizon || exists|i: int|
                0 <= i < n && config.jobs[config.order[i]].schedule is Schedule
                    && #[trigger] upcoming[i] is Some && upcoming[i]->0.instant() == wake
            &&& are_at(jobs, places, config.order, config.jobs, upcoming)
            &&& forall|i: int|
                0 <= i < n ==> (places.contains(i)
                    <==> config.jobs[config.order[i]].schedule is Schedule
                    && #[trigger] upcoming[i] is Some && upcoming[i]->0.instant() <= wake)
            &&& forall|i: int|
                0 <= i < n && config.jobs[config.order[i]].schedule is Schedule
                    && #[trigger] upcoming[i] is Some && upcoming[i]->0.instant() <= wake
                    ==> jobs.contains(
                    JobView { laststart: upcoming[i], ..config.jobs[config.order[i]].emptied() },
                )
        }),
{
    let n = config.order.len() as int;
    let wake = earliest(config, upcoming, horizon, n);
    let jobs = starting(config, upcoming, wake, n);
    lemma_earliest_of(config, upcoming, horizon, n);
    let places = lemma_starting_places(config, upcoming, wake, n);
    assert forall|i: int|
        0 <= i < n && config.jobs[config.order[i]].schedule is Schedule && #[trigger] upcoming[i] is Some
            && upcoming[i]->0.instant() <= wake implies jobs.contains(
        JobView { laststart: upcoming[i], ..config.jobs[config.order[i]].emptied() },
    ) by {
        assert(places.contains(i));
        let j = places.index_of(i);
        assert(places[j] == i);
        assert(jobs[j] == (JobView {
            laststart: upcoming[i],
            ..config.jobs[config.order[i]].emptied()
        }));
    }
    places
}

} // verus!
