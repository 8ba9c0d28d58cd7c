//! What holds of the steps of a run, of changes in the runner's directory and
//! of the answers of the web interface.

use crate::clock::Timestamp;
use crate::config::ConfigView;
use crate::execution::{
    first_step, Action, ActionView, Ending, EndingView, Event, EventView, Execution, ExecutionView,
    Stage,
};
use crate::job::{JobView, JsonJob};
use crate::outside::{formatted_time, lossy_text};
use crate::run::{ExitStatus, RunView};
use crate::text::{decimal, opt_text, signed_decimal, texts, unsigned_of};
use crate::watch::{action_on, ChangeKind, Place, WatchAction, WatchActionView};
use crate::web::{
    ending_of, entry_views, json_views, name_bytes, output_on, piece_of, record_of, record_views,
    FeedEvent, FeedEventView, FeedStage, FileChange, JsonRunRecord, OutputAction, RunEntry,
    RunEntryView, RunOutput,
};
use vstd::prelude::*;
use vstd::utf8::encode_utf8;

verus! {

/// Whether a program is started with every word of the command of a job but
/// the first, in order, and in the working directory of the job.
pub open spec fn starts_the_command(action: ActionView, program: Seq<char>, job: JobView) -> bool {
    &&& action matches ActionView::Spawn(started, args, dir)
    &&& started == program
    &&& args.len() == job.command.len() - 1
    &&& forall|i: int| 0 <= i < args.len() ==> #[trigger] args[i] == job.command[i + 1]
    &&& dir == job.workdir
}

/// A run begins with the first word of its command. If that has a slash in it,
/// the executable is located; otherwise it is started right away.
pub proof fn runs_begin_with_their_command(job: JobView)
    requires
        job.command.len() > 0,
    ensures
        job.can_run(),
        first_step(job).0.job == job,
        job.command[0].contains('/') ==> first_step(job).1 == ActionView::Locate(job.command[0])
            && first_step(job).0.stage is Locating,
        !job.command[0].contains('/') ==> starts_the_command(
            first_step(job).1,
            job.command[0],
            job,
        ) && first_step(job).0.stage is Spawning,
{
}

/// An executable that was located is started with the arguments and in the
/// working directory of the job.
pub proof fn located_executables_are_started(run: ExecutionView, program: Seq<char>)
    requires
        run.job.command.len() > 0,
    ensures
        ({
            let (next, action) = run.step(EventView::Located(Ok(program)));
            &&& starts_the_command(action, program, run.job)
            &&& next.stage is Spawning
            &&& next.job == run.job
        }),
{
}

/// The one and only way to start a process, in whichever step of a run, is
/// with the arguments and in the working directory of the job.
pub proof fn every_start_is_that_of_the_command(
    run: ExecutionView,
    event: EventView,
    program: Seq<char>,
    args: Seq<Seq<char>>,
    dir: Option<Seq<char>>,
)
    requires
        run.job.command.len() > 0,
    ensures
        run.step(event).1 == ActionView::Spawn(program, args, dir) ==> starts_the_command(
            run.step(event).1,
            program,
            run.job,
        ) && event == EventView::Located(Ok(program)),
        first_step(run.job).1 == ActionView::Spawn(program, args, dir) ==> starts_the_command(
            first_step(run.job).1,
            run.job.command[0],
            run.job,
        ),
{
}

/// What fails before the process runs, or while it is waited for, ends the run:
/// the job is reported with that error, no longer runs, and is otherwise as it
/// was.
pub proof fn errors_end_the_run(run: ExecutionView, why: Seq<char>)
    ensures
        ({
            let unlocated = run.step(EventView::Located(Err(why)));
            let unstarted = run.step(EventView::Spawned(Err(why)));
            let lost = run.step(EventView::Ended(Err(why)));
            &&& unlocated.0.stage is Over && unlocated.1 is Report
            &&& unlocated.0.job == (JobView {
                running: false,
                error: Some("Failed to locate executable "@ + run.job.command[0] + ": "@ + why),
                ..run.job
            })
            &&& unstarted.0.stage is Over && unstarted.1 is Report
            &&& unstarted.0.job == (JobView {
                running: false,
                error: Some("Failed to start: "@ + why),
                ..run.job
            })
            &&& lost.0.stage is Over && lost.1 is Report
            &&& lost.0.job == (JobView {
                running: false,
                error: Some("Failed to read job status: "@ + why),
                ..run.job
            })
        }),
{
}

/// Once its process has started, a run makes the directory that is named by its
/// start.
pub proof fn started_runs_make_their_directory(run: ExecutionView, start: Timestamp)
    requires
        run.job.laststart == Some(start),
    ensures
        ({
            let (next, action) = run.step(EventView::Spawned(Ok(())));
            &&& action == ActionView::MakeDir(
                formatted_time(
                    start.spec_secs(),
                    start.spec_nanos(),
                    start.spec_offset(),
                    "%Y-%m-%d %H:%M"@,
                ),
            )
            &&& next.stage is MakingDir
            &&& next.job == run.job
        }),
{
}

/// A job whose run has a directory of its own keeps its runs from then on; it
/// is fed its input, once, and waited for. Nothing else of it changes.
pub proof fn runs_with_a_directory_are_kept(run: ExecutionView, made: bool)
    ensures
        ({
            let (next, action) = run.step(EventView::DirMade(made));
            &&& action == ActionView::Wait(run.job.input)
            &&& next.stage is Running
            &&& next.job == (JobView { history: next.job.history, input: None, ..run.job })
            &&& made ==> next.job.history
            &&& !made ==> next.job.history == run.job.history
        }),
{
}

/// When its process ends, a run is recorded: when it started, how long it took,
/// how it ended and what it wrote, and nothing else of the job changes but that
/// it no longer runs once all is done. Where runs are kept, the status word is
/// saved with a line end, and then the seconds; a status that could not be saved
/// ends the run.
pub proof fn ended_runs_are_recorded_and_saved(
    run: ExecutionView,
    ending: EndingView,
    start: Timestamp,
    secs: u64,
)
    requires
        run.job.laststart == Some(start),
    ensures
        ({
            let (next, action) = run.step(EventView::Ended(Ok(ending)));
            let record = RunView {
                start,
                duration: Some(ending.secs),
                status: Some(ending.status),
                stdout: ending.stdout,
                stderr: ending.stderr,
            };
            &&& run.job.history ==> {
                &&& next.job == (JobView { lastrun: Some(record), ..run.job })
                &&& next.stage == Stage::SavingStatus(ending.secs)
                &&& action == ActionView::SaveStatus(
                    signed_decimal(ending.status.raw as int) + seq!['\n'],
                )
            }
            &&& !run.job.history ==> {
                &&& next.job == (JobView { lastrun: Some(record), running: false, ..run.job })
                &&& next.stage is Over
                &&& action is Report
            }
        }),
        ({
            let saving = ExecutionView { stage: Stage::SavingStatus(secs), ..run };
            let (next, action) = saving.step(EventView::StatusSaved(true));
            &&& action == ActionView::SaveDuration(decimal(secs as nat))
            &&& next.stage is SavingDuration
            &&& next.job == run.job
        }),
        ({
            let (next, action) = run.step(EventView::StatusSaved(false));
            &&& action is Report && next.stage is Over
            &&& next.job == (JobView { running: false, ..run.job })
        }),
        ({
            let (next, action) = run.step(EventView::DurationSaved);
            &&& action is Report && next.stage is Over
            &&& next.job == (JobView { running: false, ..run.job })
        }),
{
    assert(signed_decimal(ending.status.raw as int).push('\n') == signed_decimal(
        ending.status.raw as int,
    ) + seq!['\n']);
}

/// Each stage of a run waits for what its own step comes to, and the last one
/// for nothing; the start has to be known only once the process has started.
pub proof fn stages_wait_for_their_steps(run: ExecutionView, event: EventView)
    ensures
        run.awaits(event) <==> {
            ||| run.stage is Locating && event is Located
            ||| run.stage is Spawning && event is Spawned
            ||| run.stage is MakingDir && event is DirMade
            ||| run.stage is Running && event is Ended
            ||| run.stage is SavingStatus && event is StatusSaved
            ||| run.stage is SavingDuration && event is DurationSaved
        },
        run.awaits(event) && run.job.command.len() > 0 && run.job.laststart is Some ==> run.takes(
            event,
        ),
        run.awaits(event) && run.job.command.len() > 0 && (event is Located || (
        event matches EventView::Spawned(Err(_)))) ==> run.takes(event),
{
}

/// Models of the steps of a run leave out nothing.
pub proof fn execution_views_are_whole(
    run: Execution,
    ending: Ending,
    event: Event,
    action: Action,
)
    ensures
        run@.job == run.job@ && run@.stage == run.stage,
        ending@.status == ending.status && ending@.secs == ending.secs,
        ending@.stdout == ending.stdout@ && ending@.stderr == ending.stderr@,
        event matches Event::Located(Ok(p)) ==> event@ == EventView::Located(Ok(p@)),
        event matches Event::Located(Err(e)) ==> event@ == EventView::Located(Err(e@)),
        event matches Event::Spawned(Ok(u)) ==> event@ == EventView::Spawned(Ok(())),
        event matches Event::Spawned(Err(e)) ==> event@ == EventView::Spawned(Err(e@)),
        event matches Event::DirMade(b) ==> event@ == EventView::DirMade(b),
        event matches Event::Ended(Ok(e)) ==> event@ == EventView::Ended(Ok(e@)),
        event matches Event::Ended(Err(e)) ==> event@ == EventView::Ended(Err(e@)),
        event matches Event::StatusSaved(b) ==> event@ == EventView::StatusSaved(b),
        event is DurationSaved ==> event@ is DurationSaved,
        action matches Action::Locate(p) ==> action@ == ActionView::Locate(p@),
        action matches Action::Spawn(p, args, dir) ==> action@ == ActionView::Spawn(
            p@,
            texts(args@),
            opt_text(dir),
        ),
        action matches Action::MakeDir(name) ==> action@ == ActionView::MakeDir(name@),
        action matches Action::Wait(input) ==> action@ == ActionView::Wait(opt_text(input)),
        action matches Action::SaveStatus(s) ==> action@ == ActionView::SaveStatus(s@),
        action matches Action::SaveDuration(s) ==> action@ == ActionView::SaveDuration(s@),
        action is Report <==> action@ is Report,
{
}

/// A file named `job.yml` that was written or removed is a matter of the
/// directory that it is in; a directory made right in the runner's directory is
/// a matter of itself; nothing else is a matter of anything.
pub proof fn changes_matter_where_jobs_are(kind: ChangeKind, place: Place)
    ensures
        ({
            let jobfile = place.file_name is Some && place.file_name->0@ == "job.yml"@;
            let at_top = place.parent is Some && place.parent->0@.len() == 0;
            let action = action_on(kind, Some(place));
            &&& kind is Written && jobfile ==> action == WatchActionView::Update(place.parent->0@)
            &&& kind is FileRemoved && jobfile ==> action == WatchActionView::Remove(
                place.parent->0@,
            )
            &&& kind is DirCreated && at_top ==> action == WatchActionView::Added(place.path->0@)
            &&& (kind is Written || kind is FileRemoved) && !jobfile ==> action is Ignore
            &&& kind is DirCreated && !at_top ==> action is Ignore
            &&& kind is Other ==> action is Ignore
            &&& place.is_known(kind) <==> {
                &&& (kind is Written || kind is FileRemoved) && jobfile ==> place.parent is Some
                &&& kind is DirCreated && at_top ==> place.path is Some
            }
        }),
        action_on(kind, None) is Ignore,
{
}

/// Models of what to do about a change leave out nothing.
pub proof fn watch_views_are_whole(action: WatchAction)
    ensures
        action is Ignore <==> action@ is Ignore,
        action matches WatchAction::Update(dir) ==> action@ == WatchActionView::Update(dir@),
        action matches WatchAction::Added(dir) ==> action@ == WatchActionView::Added(dir@),
        action matches WatchAction::Remove(dir) ==> action@ == WatchActionView::Remove(dir@),
{
}

/// A run is listed by its own name, with its own output and with the seconds in
/// its duration file, if these are a number. It is listed as running just if it
/// is the one under way; otherwise by its status: unknown if there is none, and
/// if there is one as a success just if the status word is zero, and else with
/// the status in words.
pub proof fn runs_are_listed_as_they_are(entry: RunEntryView, running: Option<Seq<char>>)
    ensures
        ({
            let record = record_of(entry, running);
            let under_way = running is Some && running->0 == entry.name;
            &&& record.start == entry.name
            &&& record.log == entry.log
            &&& record.err == entry.err
            &&& entry.duration is None ==> record.duration is None
            &&& entry.duration matches Some(text) ==> record.duration == unsigned_of(text)
            &&& under_way ==> record.status == "Running"@ && record.statustext.len() == 0
            &&& !under_way && entry.status is None ==> record.status == "Unknown"@
                && record.statustext == "exit status not recorded"@
            &&& !under_way && entry.status is Some && entry.status->0.raw == 0 ==> record.status
                == "OK"@ && record.statustext.len() == 0
            &&& !under_way && entry.status is Some && entry.status->0.raw != 0 ==> record.status
                == "Failure"@ && record.statustext == entry.status_words
        }),
{
}

/// The run under way of a job is that of its last start, while it runs; a job
/// that does not run has none.
pub proof fn running_jobs_have_a_run_under_way(config: ConfigView, path: Seq<char>)
    ensures
        !config.jobs[path].running ==> config.running_name(path) is None,
        config.jobs[path].laststart is None ==> config.running_name(path) is None,
        config.jobs[path].running ==> (config.jobs[path].laststart matches Some(t)
            ==> config.running_name(path) == Some(
            formatted_time(t.spec_secs(), t.spec_nanos(), t.spec_offset(), "%Y-%m-%d %H:%M"@),
        )),
{
}

/// Every job is shown, in the order of the walk, with its own flags and counts
/// and with the next instant that was asked for it if it has a cron expression.
pub proof fn all_jobs_are_shown(
    config: ConfigView,
    upcoming: Seq<Option<Timestamp>>,
    i: int,
)
    requires
        0 <= i < config.order.len(),
    ensures
        config.shown(upcoming).len() == config.order.len(),
        ({
            let job = config.jobs[config.order[i]];
            let shown = config.shown(upcoming)[i];
            &&& shown == job.json(upcoming[i])
            &&& shown.path == job.path && shown.name == job.name
            &&& shown.running == job.running && shown.error == job.error
            &&& shown.laststart == job.laststart && shown.skipped == job.skipped
            &&& shown.history == job.history
            &&& job.schedule is Schedule ==> shown.nextrun == upcoming[i]
            &&& !(job.schedule is Schedule) ==> shown.nextrun is None
        }),
        config.can_be_shown() <==> forall|k: Seq<char>| #[trigger]
            config.jobs.contains_key(k) ==> (config.jobs[k].lastrun matches Some(run)
                ==> run.duration is Some && run.status is Some
                && run.status->0.exit_code() is Some),
{
}

/// What follows a change: bytes added to `out` or `err` are sent, and `status`
/// once it was written and closed; nothing else is.
pub proof fn changes_of_output_are_sent(name: Seq<char>)
    ensures
        output_on(FileChange::Data, "out"@) == OutputAction::SendOut,
        output_on(FileChange::Data, "err"@) == OutputAction::SendErr,
        name != "out"@ && name != "err"@ ==> output_on(FileChange::Data, name)
            == OutputAction::Ignore,
        output_on(FileChange::Closed, "status"@) == OutputAction::SendStatus,
        name != "status"@ ==> output_on(FileChange::Closed, name) == OutputAction::Ignore,
        output_on(FileChange::Other, name) == OutputAction::Ignore,
{
    reveal_strlit("out");
    reveal_strlit("err");
    assert("out"@[0] != "err"@[0]);
}

/// What is read of the standard output is sent as such, be it read for the
/// first time or again, and what is read of the standard error as such, each
/// as the text of just the bytes that were read.
pub proof fn output_is_sent_as_what_it_is(bytes: Seq<u8>, first: bool)
    ensures
        ({
            let sent = FeedStage::ReadingOut(first).sent(FeedEventView::Read(bytes));
            sent is Some && sent->0.field == "stdout"@ && sent->0.value == lossy_text(bytes)
        }),
        ({
            let sent = FeedStage::ReadingErr.sent(FeedEventView::Read(bytes));
            sent is Some && sent->0.field == "stderr"@ && sent->0.value == lossy_text(bytes)
        }),
        piece_of(false, bytes).field == "stdout"@ && piece_of(true, bytes).field == "stderr"@,
        piece_of(false, bytes).value == lossy_text(bytes),
        piece_of(true, bytes).value == lossy_text(bytes),
{
}

/// What is read after a change to a file is what that file is for: after one to
/// `out` the standard output, after one to `err` the standard error; and bytes
/// read in the same pass are sent under the same field.
pub proof fn followed_output_keeps_its_field(bytes: Seq<u8>)
    ensures
        ({
            let stage = FeedStage::Waiting.next(FeedEventView::Changed(FileChange::Data, "out"@));
            let sent = stage.sent(FeedEventView::Read(bytes));
            &&& sent is Some && sent->0.field == "stdout"@ && sent->0.value == lossy_text(bytes)
            &&& stage.next(FeedEventView::Read(bytes)) == stage
            &&& stage.next(FeedEventView::Drained) == FeedStage::Waiting
        }),
        ({
            let stage = FeedStage::Waiting.next(FeedEventView::Changed(FileChange::Data, "err"@));
            let sent = stage.sent(FeedEventView::Read(bytes));
            &&& sent is Some && sent->0.field == "stderr"@ && sent->0.value == lossy_text(bytes)
            &&& stage.next(FeedEventView::Read(bytes)) == stage
            &&& stage.next(FeedEventView::Drained) == FeedStage::Waiting
        }),
{
    changes_of_output_are_sent("out"@);
}

/// How a run ended is said by its status: success just if the status word is
/// zero, else the status in words, and that it could not be read if it could
/// not. It is the only thing sent under that field, and nothing is sent upon
/// any other event but bytes.
pub proof fn endings_are_sent_as_they_are(
    stage: FeedStage,
    event: FeedEventView,
    status: Option<ExitStatus>,
    words: Seq<char>,
)
    ensures
        ending_of(status, words).field == "status"@,
        status is None ==> ending_of(status, words).value == "Failed to read exit status"@,
        status is Some && status->0.raw == 0 ==> ending_of(status, words).value
            == "finished successfully"@,
        status is Some && status->0.raw != 0 ==> ending_of(status, words).value == "failed with "@
            + words,
        stage.sent(FeedEventView::Status(status, words)) == Some(ending_of(status, words)),
        stage.sent(event) is Some <==> event is Read || event is Status,
{
}

/// A feed goes on as it should: a file is read until it is drained; a file
/// drained at the start leads to the other one and then to the changes; a
/// change that matters leads to what it is of, and any other to nothing; the
/// status ends the feed, and so does the end of the changes.
pub proof fn feeds_follow_the_changes(stage: FeedStage, event: FeedEventView, name: Seq<char>)
    ensures
        event is Read ==> stage.next(event) == stage,
        FeedStage::ReadingOut(true).next(FeedEventView::Drained) == FeedStage::ReadingErr,
        FeedStage::ReadingOut(false).next(FeedEventView::Drained) == FeedStage::Waiting,
        FeedStage::ReadingErr.next(FeedEventView::Drained) == FeedStage::Waiting,
        stage.next(FeedEventView::Changed(FileChange::Data, "out"@)) == FeedStage::ReadingOut(false),
        stage.next(FeedEventView::Changed(FileChange::Data, "err"@)) == FeedStage::ReadingErr,
        stage.next(FeedEventView::Changed(FileChange::Closed, "status"@))
            == FeedStage::ReadingStatus,
        name != "out"@ && name != "err"@ ==> stage.next(
            FeedEventView::Changed(FileChange::Data, name),
        ) == FeedStage::Waiting,
        name != "status"@ ==> stage.next(FeedEventView::Changed(FileChange::Closed, name))
            == FeedStage::Waiting,
        stage.next(FeedEventView::Changed(FileChange::Other, name)) == FeedStage::Waiting,
        event is Unwatched || event is Status ==> stage.next(event) == FeedStage::Over,
        stage.awaits(event) <==> {
            ||| (stage is ReadingOut || stage is ReadingErr) && (event is Read || event is Drained)
            ||| stage is Waiting && (event is Changed || event is Unwatched)
            ||| stage is ReadingStatus && event is Status
        },
{
    changes_of_output_are_sent(name);
}

/// Models of what the web interface answers leave out nothing.
pub proof fn web_views_are_whole(
    entry: RunEntry,
    record: JsonRunRecord,
    piece: RunOutput,
    event: FeedEvent,
)
    ensures
        entry@.name == entry.name@ && entry@.status == entry.status,
        entry@.status_words == entry.status_words@ && entry@.duration == opt_text(entry.duration),
        entry@.log == entry.log@ && entry@.err == entry.err@,
        record@.start == record.start@ && record@.status == record.status@,
        record@.statustext == record.statustext@ && record@.duration == record.duration,
        record@.log == record.log@ && record@.err == record.err@,
        piece@.field == piece.field@ && piece@.value == piece.value@,
        event matches FeedEvent::Read(bytes) ==> event@ == FeedEventView::Read(bytes@),
        event is Drained ==> event@ is Drained,
        event matches FeedEvent::Changed(change, name) ==> event@ == FeedEventView::Changed(
            change,
            name@,
        ),
        event is Unwatched ==> event@ is Unwatched,
        event matches FeedEvent::Status(status, words) ==> event@ == FeedEventView::Status(
            status,
            words@,
        ),
{
}

/// Models of lists have every item of the list, and the names of runs are
/// ordered by their bytes.
pub proof fn lists_are_whole(
    entries: Seq<RunEntry>,
    records: Seq<JsonRunRecord>,
    jobs: Seq<JsonJob>,
    models: Seq<RunEntryView>,
)
    ensures
        entry_views(entries).len() == entries.len(),
        forall|i: int| 0 <= i < entries.len() ==> #[trigger] entry_views(entries)[i] == entries[i]@,
        record_views(records).len() == records.len(),
        forall|i: int|
            0 <= i < records.len() ==> #[trigger] record_views(records)[i] == records[i]@,
        json_views(jobs).len() == jobs.len(),
        forall|i: int| 0 <= i < jobs.len() ==> #[trigger] json_views(jobs)[i] == jobs[i]@,
        name_bytes(models).len() == models.len(),
        forall|i: int|
            0 <= i < models.len() ==> #[trigger] name_bytes(models)[i] == encode_utf8(
                models[i].name,
            ),
{
}

} // verus!
