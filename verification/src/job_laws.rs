//! What holds of instants, documents, schedules, runs and jobs.

use crate::clock::{offset_in_range, seconds_in_range, Timestamp};
use crate::duration::duration_text;
use crate::job::{
    command_words, job_of, job_of_document, job_of_file, job_views, jobfile_is_readable,
    schedule_has_word, Job, JobView, JsonJob,
};
use crate::outside::{
    cron_error, cron_includes, formatted_time, lossy_text, rfc3339_text, shell_split,
    yaml_documents,
};
use crate::run::{status_file_text, status_in_file, ExitStatus, JsonRun, Run, RunView};
use crate::schedule::{cron_answered, schedule_of, Schedule, ScheduleView};
use crate::text::{opt_text, signed_decimal, signed_of, spaced, texts, without_dot_slash, words_of};
use crate::yaml::{documents_view, lookup, table_view, Document, DocumentView, Node, NodeView};
use vstd::prelude::*;

verus! {

/// Instants are ordered by their seconds and then by their nanoseconds; a run
/// is named by its start and shown with it at the offset of that start.
pub proof fn instants_are_shown_where_they_are(t: Timestamp, u: Timestamp)
    requires
        t.spec_nanos() < 1_000_000_000,
        u.spec_nanos() < 1_000_000_000,
    ensures
        t.instant() < u.instant() <==> t.spec_secs() < u.spec_secs() || (t.spec_secs()
            == u.spec_secs() && t.spec_nanos() < u.spec_nanos()),
        t.instant() == u.instant() <==> t.spec_secs() == u.spec_secs() && t.spec_nanos()
            == u.spec_nanos(),
        t.run_name_text() == formatted_time(
            t.spec_secs(),
            t.spec_nanos(),
            t.spec_offset(),
            "%Y-%m-%d %H:%M"@,
        ),
        t.rfc3339_text() == rfc3339_text(t.spec_secs(), t.spec_nanos(), t.spec_offset()),
{
}

/// The calendar is defined from the first second of the year -262143 to the
/// last of the year 262142, for offsets of less than a day to either side.
pub proof fn calendar_has_its_bounds(secs: i64, offset: i32)
    ensures
        seconds_in_range(secs) <==> -8_334_601_228_800 <= secs <= 8_210_266_876_799,
        offset_in_range(offset) <==> -86_400 < offset < 86_400,
{
}

/// Under a key stands the value of the first entry with that key.
pub proof fn first_entry_counts(
    entries: Seq<(Option<Seq<char>>, NodeView)>,
    key: Seq<char>,
    i: int,
)
    requires
        0 <= i < entries.len(),
        entries[i].0 == Some(key),
        forall|j: int| 0 <= j < i ==> (#[trigger] entries[j]).0 != Some(key),
    ensures
        lookup(entries, key) == Some(entries[i].1),
    decreases i,
{
    if i > 0 {
        assert(entries[0].0 != Some(key));
        assert forall|j: int| 0 <= j < i - 1 implies (#[trigger] entries.skip(1)[j]).0 != Some(
            key,
        ) by {
            assert(entries.skip(1)[j] == entries[j + 1]);
        }
        first_entry_counts(entries.skip(1), key, i - 1);
    }
}

/// Nothing stands under a key that no entry has.
pub proof fn no_entry_no_value(entries: Seq<(Option<Seq<char>>, NodeView)>, key: Seq<char>)
    requires
        forall|j: int| 0 <= j < entries.len() ==> (#[trigger] entries[j]).0 != Some(key),
    ensures
        lookup(entries, key) is None,
    decreases entries.len(),
{
    if entries.len() > 0 {
        assert(entries[0].0 != Some(key));
        assert forall|j: int| 0 <= j < entries.skip(1).len() implies (#[trigger] entries.skip(
            1,
        )[j]).0 != Some(key) by {
            assert(entries.skip(1)[j] == entries[j + 1]);
        }
        no_entry_no_value(entries.skip(1), key);
    }
}

/// What a document has under a key is what the entry with that key has: its
/// text as text, its table as a table; a document that is no mapping has
/// nothing.
pub proof fn documents_have_what_their_entries_have(doc: DocumentView, key: Seq<char>)
    ensures
        doc.entries is None ==> doc.text_at(key) is None && doc.table_at(key) is None,
        doc.entries matches Some(entries) ==> match lookup(entries, key) {
            Some(node) => doc.text_at(key) == node.text && doc.table_at(key) == node.table,
            None => doc.text_at(key) is None && doc.table_at(key) is None,
        },
{
}

/// Models of documents leave out nothing.
pub proof fn document_views_are_whole(doc: Document, node: Node, docs: Seq<Document>)
    ensures
        node@.text == opt_text(node.text),
        node.table is None <==> node@.table is None,
        node.table matches Some(t) ==> node@.table == Some(table_view(t@)) && table_view(t@).len()
            == t@.len() && forall|i: int|
            0 <= i < t@.len() ==> #[trigger] table_view(t@)[i] == (
                opt_text(t@[i].0),
                opt_text(t@[i].1),
            ),
        doc.entries is None <==> doc@.entries is None,
        doc.entries matches Some(e) ==> doc@.entries->0.len() == e@.len() && forall|i: int|
            0 <= i < e@.len() ==> #[trigger] doc@.entries->0[i] == (opt_text(e@[i].0), e@[i].1@),
        documents_view(docs).len() == docs.len(),
        forall|i: int| 0 <= i < docs.len() ==> #[trigger] documents_view(docs)[i] == docs[i]@,
{
}

/// A schedule is read by its first word: `continuous`, whatever follows; with
/// `after`, the words behind it are the jobs that are waited for, and there has
/// to be one; anything else is left to `cron` as a whole.
pub proof fn schedules_are_read_by_their_first_word(expr: Seq<char>, refusal: Option<Seq<char>>)
    requires
        words_of(expr).len() > 0,
    ensures
        ({
            let words = words_of(expr);
            let read = schedule_of(expr, refusal);
            &&& words[0] == "continuous"@ ==> read == Ok::<ScheduleView, Seq<char>>(
                ScheduleView::Continuous,
            )
            &&& words[0] == "after"@ && words.len() == 1 ==> read == Err::<ScheduleView, Seq<char>>(
                "Invalid schedule expression: "@ + expr,
            )
            &&& words[0] == "after"@ && words.len() > 1 ==> {
                &&& read matches Ok(s)
                &&& s matches ScheduleView::After(paths)
                &&& paths.len() == words.len() - 1
                &&& forall|i: int| 0 <= i < paths.len() ==> #[trigger] paths[i] == words[i + 1]
            }
            &&& words[0] != "continuous"@ && words[0] != "after"@ ==> match refusal {
                None => read matches Ok(s) && s == ScheduleView::Schedule(expr),
                Some(why) => read matches Err(e) && e == "Failed to parse schedule: "@ + why,
            }
        }),
{
    reveal_strlit("continuous");
    reveal_strlit("after");
    assert("continuous"@.len() != "after"@.len());
}

/// A job follows just the jobs that it names; only a cron expression has
/// instants, which are those that `cron` includes.
pub proof fn schedules_mean_what_they_say(schedule: ScheduleView, path: Seq<char>, t: Timestamp)
    ensures
        schedule.follows(path) <==> (schedule matches ScheduleView::After(paths) && exists|i: int|
            0 <= i < paths.len() && #[trigger] paths[i] == path),
        schedule.includes(t) <==> (schedule matches ScheduleView::Schedule(expr) && cron_includes(
            expr,
            t.spec_secs(),
            t.spec_offset(),
        )),
        schedule.allows(Some(t)) ==> schedule.includes(t) && t.spec_nanos() == 0,
        schedule.allows(Some(t)) ==> (schedule matches ScheduleView::Schedule(expr) && cron_error(
            expr,
        ) is None),
        !(schedule is Schedule) ==> schedule.gave(None) && !schedule.gave(Some(t)),
        schedule matches ScheduleView::Schedule(expr) ==> (schedule.gave(Some(t))
            <==> cron_answered(expr, Some(t))) && (schedule.gave(None) <==> cron_answered(
            expr,
            None,
        )),
{
}

/// Models of schedules leave out nothing.
pub proof fn schedule_views_are_whole(schedule: Schedule)
    ensures
        schedule is Never <==> schedule@ is Never,
        schedule is Continuous <==> schedule@ is Continuous,
        schedule is After <==> schedule@ is After,
        schedule is Schedule <==> schedule@ is Schedule,
        schedule matches Schedule::After(paths) ==> schedule@ == ScheduleView::After(texts(paths@)),
        schedule matches Schedule::Schedule(expr) ==> schedule@ == ScheduleView::Schedule(expr@),
{
}

/// A status word says success just if it is zero. It has an exit code just if
/// its lowest seven bits are zero, and that code is its second byte.
pub proof fn status_words_have_their_code(status: ExitStatus, code: u8)
    ensures
        status.succeeded() <==> status.raw == 0,
        status.raw == 256 * code ==> status.exit_code() == Some(code),
        status.exit_code() is Some <==> status.raw % 128 == 0,
        status.exit_code() matches Some(c) ==> 256 * c <= status.raw as int % 65536 < 256 * c + 256,
{
    let raw = status.raw as int;
    assert((raw / 256) % 256 == (raw % 65536) / 256);
}

/// A status file holds the status word in decimal and a line end. What is read
/// of one is the number in it, with or without that line end.
pub proof fn status_files_hold_the_status_word(status: ExitStatus, text: Seq<char>)
    ensures
        status_file_text(status) == signed_decimal(status.raw as int) + seq!['\n'],
        status_in_file(text.push('\n')) is Some <==> signed_of(text) is Some,
        status_in_file(text.push('\n')) matches Some(s) ==> signed_of(text) == Some(s.raw),
        text.len() == 0 || text.last() != '\n' ==> status_in_file(text) == status_in_file(
            text.push('\n'),
        ),
{
    assert(text.push('\n').drop_last() == text);
    assert(status_file_text(status) =~= signed_decimal(status.raw as int) + seq!['\n']);
}

/// A run is shown with its own start, length, exit code and output.
pub proof fn runs_are_shown_as_they_were(run: RunView)
    requires
        run.duration is Some,
        run.status is Some,
        run.status->0.exit_code() is Some,
    ensures
        run.is_over(),
        run.has_code(),
        run.json().start == rfc3339_text(
            run.start.spec_secs(),
            run.start.spec_nanos(),
            run.start.spec_offset(),
        ),
        Some(run.json().duration) == run.duration,
        Some(run.json().status) == run.status->0.exit_code(),
        run.json().log == lossy_text(run.stdout),
        run.json().err == lossy_text(run.stderr),
{
}

/// The line on the end of a run names the job, says how long it took, and says
/// that it failed, and how, just if the status word is not zero; otherwise that
/// it went well, or with errors if it wrote any.
pub proof fn ends_are_reported_as_they_were(
    run: RunView,
    secs: u64,
    raw: i32,
    path: Seq<char>,
    words: Seq<char>,
)
    requires
        run.duration == Some(secs),
        run.status == Some(ExitStatus { raw }),
    ensures
        ({
            let took = duration_text(secs as int);
            let line = run.end_report(path, words);
            &&& raw != 0 ==> line == "["@ + path + "] failed after "@ + took + " with "@ + words
            &&& raw == 0 && run.stderr.len() == 0 ==> line == "["@ + path
                + "] finished successfully in "@ + took
            &&& raw == 0 && run.stderr.len() > 0 ==> line == "["@ + path
                + "] finished with errors in "@ + took
        }),
{
}

/// Models of runs leave out nothing.
pub proof fn run_views_are_whole(run: Run, json: JsonRun)
    ensures
        run@.start == run.start,
        run@.duration == run.duration,
        run@.status == run.status,
        run@.stdout == run.stdout@,
        run@.stderr == run.stderr@,
        json@.start == json.start@,
        json@.duration == json.duration,
        json@.status == json.status,
        json@.log == json.log@,
        json@.err == json.err@,
{
}

/// Models of jobs leave out nothing.
pub proof fn job_views_are_whole(job: Job, json: JsonJob, jobs: Seq<Job>)
    ensures
        job@.name == job.name@,
        job@.path == job.path@,
        job@.command == texts(job.command@),
        job@.workdir == opt_text(job.workdir),
        job@.schedule == job.schedule@,
        job@.input == opt_text(job.input),
        job@.error == opt_text(job.error),
        job@.running == job.running,
        job@.laststart == job.laststart,
        job@.lastrun is Some <==> job.lastrun is Some,
        job.lastrun matches Some(run) ==> job@.lastrun == Some(run@),
        job@.skipped == job.skipped,
        job@.history == job.history,
        job@.update == job.update,
        json@.name == json.name@,
        json@.path == json.path@,
        json@.command == json.command@,
        json@.nextrun == json.nextrun,
        json@.after == opt_text(json.after),
        json@.error == opt_text(json.error),
        json@.running == json.running,
        json@.laststart == json.laststart,
        json@.lastrun is Some <==> json.lastrun is Some,
        json.lastrun matches Some(run) ==> json@.lastrun == Some(run@),
        json@.skipped == json.skipped,
        json@.history == json.history,
        job_views(jobs).len() == jobs.len(),
        forall|i: int| 0 <= i < jobs.len() ==> #[trigger] job_views(jobs)[i] == jobs[i]@,
{
}

/// What is shown of a job is its own: its name, path, error, start, counts and
/// flags as they are; its command and the jobs that it waits for, joined; its
/// next start if it has a cron expression; and its last run.
pub proof fn jobs_are_shown_as_they_are(job: JobView, upcoming: Option<Timestamp>)
    ensures
        ({
            let shown = job.json(upcoming);
            &&& shown.name == job.name
            &&& shown.path == job.path
            &&& shown.command == spaced(job.command)
            &&& shown.error == job.error
            &&& shown.running == job.running
            &&& shown.laststart == job.laststart
            &&& shown.skipped == job.skipped
            &&& shown.history == job.history
            &&& match job.schedule {
                ScheduleView::Schedule(_) => shown.nextrun == upcoming && shown.after is None,
                ScheduleView::After(paths) => shown.nextrun is None && shown.after == Some(
                    spaced(paths),
                ),
                _ => shown.nextrun is None && shown.after is None,
            }
            &&& match job.lastrun {
                Some(run) => shown.lastrun == Some(run.json()),
                None => shown.lastrun is None,
            }
        }),
        job.can_be_shown() <==> (job.lastrun matches Some(run) ==> run.duration is Some
            && run.status is Some && run.status->0.exit_code() is Some),
{
}

/// An emptied job keeps what it is, whether it runs and whether its runs are
/// kept, and has nothing else of its runs.
pub proof fn emptied_jobs_keep_what_they_are(job: JobView)
    ensures
        ({
            let empty = job.emptied();
            &&& empty.name == job.name
            &&& empty.path == job.path
            &&& empty.command == job.command
            &&& empty.workdir == job.workdir
            &&& empty.schedule == job.schedule
            &&& empty.running == job.running
            &&& empty.history == job.history
            &&& empty.error is None
            &&& empty.laststart is None
            &&& empty.lastrun is None
            &&& empty.input is None
            &&& empty.skipped == 0
            &&& !empty.update
        }),
{
}

/// A blank job has nothing; a broken one has its path, a name and an error and
/// nothing else. The name is the one it is given, or else its path without the
/// `./` in front.
pub proof fn broken_jobs_have_their_error(
    name: Option<Seq<char>>,
    path: Seq<char>,
    error: Seq<char>,
)
    ensures
        ({
            let blank = JobView::blank();
            let broken = JobView::broken(name, path, error);
            &&& broken.path == path
            &&& broken.error == Some(error)
            &&& name matches Some(name) ==> broken.name == name
            &&& name is None ==> broken.name == without_dot_slash(path)
            &&& broken.command.len() == 0 && blank.command.len() == 0
            &&& broken.workdir is None && blank.workdir is None
            &&& broken.schedule is Never && blank.schedule is Never
            &&& broken.input is None && blank.input is None
            &&& !broken.running && !blank.running
            &&& broken.laststart is None && blank.laststart is None
            &&& broken.lastrun is None && blank.lastrun is None
            &&& broken.skipped == 0 && blank.skipped == 0
            &&& !broken.history && !blank.history
            &&& !broken.update && !blank.update
            &&& blank.name.len() == 0 && blank.path.len() == 0 && blank.error is None
        }),
{
}

/// A document whose schedule, if it has one, can be read, and whose command line
/// is there and can be split, makes a job with these words as its command, with
/// that schedule and with the document's working directory, and no error.
pub proof fn documents_make_their_jobs(
    path: Seq<char>,
    doc: DocumentView,
    refusal: Option<Seq<char>>,
    words: Seq<Seq<char>>,
)
    requires
        doc.text_at("command"@) is Some,
        doc.text_at("schedule"@) matches Some(expr) ==> schedule_of(expr, refusal) is Ok,
    ensures
        ({
            let job = job_of(path, doc, refusal, Ok(words));
            &&& job.error is None
            &&& job.path == path
            &&& doc.text_at("name"@) matches Some(name) ==> job.name == without_dot_slash(name)
            &&& doc.text_at("name"@) is None ==> job.name == without_dot_slash(path)
            &&& job.command == words
            &&& job.workdir == doc.text_at("workdir"@)
            &&& doc.text_at("schedule"@) is None ==> job.schedule is Never
            &&& doc.text_at("schedule"@) matches Some(expr) ==> schedule_of(expr, refusal) == Ok::<
                ScheduleView,
                Seq<char>,
            >(job.schedule)
            &&& !job.running && !job.history && !job.update && job.skipped == 0
            &&& job.laststart is None && job.lastrun is None && job.input is None
        }),
{
}

/// A document makes a job that cannot run just if its schedule cannot be read,
/// or it has no command line, or that cannot be split; the first of these that
/// holds is the error. The job has its name and its path all the same.
pub proof fn broken_documents_make_broken_jobs(
    path: Seq<char>,
    doc: DocumentView,
    refusal: Option<Seq<char>>,
    words: Result<Seq<Seq<char>>, Seq<char>>,
)
    ensures
        ({
            let job = job_of(path, doc, refusal, words);
            let schedule = doc.text_at("schedule"@);
            let unread = schedule is Some && schedule_of(schedule->0, refusal) is Err;
            let unsaid = doc.text_at("command"@) is None;
            &&& job.error is Some <==> unread || unsaid || words is Err
            &&& unread ==> job.error == Some(schedule_of(schedule->0, refusal)->Err_0)
            &&& !unread && unsaid ==> job.error == Some("No command found in jobfile"@)
            &&& !unread && !unsaid && words is Err ==> job.error == Some(
                "Invalid command found in jobfile: "@ + words->Err_0,
            )
            &&& job.path == path
            &&& doc.text_at("name"@) matches Some(name) ==> job.name == without_dot_slash(name)
            &&& doc.text_at("name"@) is None ==> job.name == without_dot_slash(path)
            &&& job.error is Some ==> job.command.len() == 0 && job.workdir is None
                && job.schedule is Never
        }),
{
}

/// A job file makes the job of its first document, with the schedule as `cron`
/// judges it and the command as `shell_words` splits it; one that is no YAML
/// makes a broken job, named after its path.
pub proof fn job_files_make_the_job_of_their_first_document(path: Seq<char>, yaml: Seq<char>)
    ensures
        match yaml_documents(yaml) {
            Err(why) => {
                let job = job_of_file(path, yaml);
                &&& job.error == Some("Invalid YAML in jobfile: "@ + why)
                &&& job.name == without_dot_slash(path)
                &&& job.path == path
                &&& jobfile_is_readable(yaml)
            },
            Ok(docs) => {
                let doc = docs[0];
                let line = doc.text_at("command"@);
                let expr = doc.text_at("schedule"@);
                &&& jobfile_is_readable(yaml) <==> docs.len() > 0 && (expr is Some ==> words_of(
                    expr->0,
                ).len() > 0)
                &&& schedule_has_word(doc) <==> (expr is Some ==> words_of(expr->0).len() > 0)
                &&& line is Some && shell_split(line->0) is Some ==> job_of_file(path, yaml)
                    == job_of(path, doc, cron_error(expr->0), Ok(shell_split(line->0)->0))
                &&& line is Some && shell_split(line->0) is None ==> job_of_file(path, yaml)
                    == job_of(path, doc, cron_error(expr->0), Err("missing closing quote"@))
                &&& line is None ==> job_of_file(path, yaml).error is Some
                &&& job_of_file(path, yaml) == job_of_document(path, doc)
            },
        },
{
    if let Ok(docs) = yaml_documents(yaml) {
        let line = docs[0].text_at("command"@)->0;
        assert(shell_split(line) is Some ==> command_words(line) == Ok::<
            Seq<Seq<char>>,
            Seq<char>,
        >(shell_split(line)->0));
    }
}

} // verus!
