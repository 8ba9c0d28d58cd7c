//! Jobs: what they run, when they run, and how their last run went.

use crate::clock::Timestamp;
use crate::outside::{
    check_cron, cron_error, load_yaml, lossy_text, shell_split, split_command, text_from_bytes,
    yaml_documents,
};
use crate::run::{JsonRun, JsonRunView, Run, RunView};
use crate::schedule::{schedule_of, Schedule, ScheduleView};
use crate::text::{
    chained, clone_opt, clone_texts, join_spaced, opt_text, owned, spaced, split_words, texts,
    trim_dot_slash, without_dot_slash, words_of,
};
use crate::yaml::{documents_view, Document, DocumentView};
use vstd::prelude::*;

verus! {

/// A job: its name, the path of its directory, the command it runs and where,
/// when it starts, and what is known of its runs.
#[derive(Debug)]
pub struct Job {
    pub name: String,
    pub path: String,
    pub command: Vec<String>,
    pub workdir: Option<String>,
    pub schedule: Schedule,
    pub input: Option<String>,
    pub error: Option<String>,
    pub running: bool,
    pub laststart: Option<Timestamp>,
    pub lastrun: Option<Run>,
    pub skipped: usize,
    pub history: bool,
    pub update: bool,
}

/// The model of a job.
pub struct JobView {
    pub name: Seq<char>,
    pub path: Seq<char>,
    pub command: Seq<Seq<char>>,
    pub workdir: Option<Seq<char>>,
    pub schedule: ScheduleView,
    pub input: Option<Seq<char>>,
    pub error: Option<Seq<char>>,
    pub running: bool,
    pub laststart: Option<Timestamp>,
    pub lastrun: Option<RunView>,
    pub skipped: usize,
    pub history: bool,
    pub update: bool,
}

impl View for Job {
    type V = JobView;

    open spec fn view(&self) -> JobView {
        JobView {
            name: self.name@,
            path: self.path@,
            command: texts(self.command@),
            workdir: opt_text(self.workdir),
            schedule: self.schedule@,
            input: opt_text(self.input),
            error: opt_text(self.error),
            running: self.running,
            laststart: self.laststart,
            lastrun: match self.lastrun {
                Some(run) => Some(run@),
                None => None,
            },
            skipped: self.skipped,
            history: self.history,
            update: self.update,
        }
    }
}

/// The models of jobs.
pub open spec fn job_views(jobs: Seq<Job>) -> Seq<JobView> {
    jobs.map_values(|j: Job| j@)
}

/// A job as the web interface shows it.
#[derive(Debug)]
pub struct JsonJob {
    pub name: String,
    pub path: String,
    pub command: String,
    pub nextrun: Option<Timestamp>,
    pub after: Option<String>,
    pub error: Option<String>,
    pub running: bool,
    pub laststart: Option<Timestamp>,
    pub lastrun: Option<JsonRun>,
    pub skipped: usize,
    pub history: bool,
}

/// The model of a job as the web interface shows it.
pub struct JsonJobView {
    pub name: Seq<char>,
    pub path: Seq<char>,
    pub command: Seq<char>,
    pub nextrun: Option<Timestamp>,
    pub after: Option<Seq<char>>,
    pub error: Option<Seq<char>>,
    pub running: bool,
    pub laststart: Option<Timestamp>,
    pub lastrun: Option<JsonRunView>,
    pub skipped: usize,
    pub history: bool,
}

impl View for JsonJob {
    type V = JsonJobView;

    open spec fn view(&self) -> JsonJobView {
        JsonJobView {
            name: self.name@,
            path: self.path@,
            command: self.command@,
            nextrun: self.nextrun,
            after: opt_text(self.after),
            error: opt_text(self.error),
            running: self.running,
            laststart: self.laststart,
            lastrun: match self.lastrun {
                Some(run) => Some(run@),
                None => None,
            },
            skipped: self.skipped,
            history: self.history,
        }
    }
}

impl JobView {
    /// A job of which nothing is known.
    pub open spec fn blank() -> JobView {
        JobView {
            name: seq![],
            path: seq![],
            command: seq![],
            workdir: None,
            schedule: ScheduleView::Never,
            input: None,
            error: None,
            running: false,
            laststart: None,
            lastrun: None,
            skipped: 0,
            history: false,
            update: false,
        }
    }

    /// The job without what is known of its runs, but for whether it runs and
    /// whether runs are kept.
    pub open spec fn emptied(self) -> JobView {
        JobView {
            input: None,
            error: None,
            laststart: None,
            lastrun: None,
            skipped: 0,
            update: false,
            ..self
        }
    }

    /// A job that cannot run.
    pub open spec fn broken(name: Option<Seq<char>>, path: Seq<char>, error: Seq<char>) -> JobView {
        JobView {
            name: match name {
                Some(name) => name,
                None => without_dot_slash(path),
            },
            path,
            error: Some(error),
            ..JobView::blank()
        }
    }

    /// Whether the job can be shown: its last run, if there is one, has an exit
    /// code.
    pub open spec fn can_be_shown(self) -> bool {
        self.lastrun matches Some(run) ==> run.has_code()
    }

    /// The job as the web interface shows it, given the next instant of its
    /// cron expression.
    pub open spec fn json(self, upcoming: Option<Timestamp>) -> JsonJobView {
        JsonJobView {
            name: self.name,
            path: self.path,
            command: spaced(self.command),
            nextrun: if self.schedule is Schedule {
                upcoming
            } else {
                None
            },
            after: match self.schedule {
                ScheduleView::After(paths) => Some(spaced(paths)),
                _ => None,
            },
            error: self.error,
            running: self.running,
            laststart: self.laststart,
            lastrun: match self.lastrun {
                Some(run) => Some(run.json()),
                None => None,
            },
            skipped: self.skipped,
            history: self.history,
        }
    }
}

/// The name of a job: the one that its document gives or else its path,
/// without the `./` in front.
pub open spec fn job_name(path: Seq<char>, doc: DocumentView) -> Seq<char> {
    without_dot_slash(
        match doc.text_at("name"@) {
            Some(name) => name,
            None => path,
        },
    )
}

/// Whether the schedule of a document, if there is one, has a word in it.
pub open spec fn schedule_has_word(doc: DocumentView) -> bool {
    doc.text_at("schedule"@) matches Some(expr) ==> words_of(expr).len() > 0
}

/// The words of a command line, or the error with which it is refused.
pub open spec fn command_words(line: Seq<char>) -> Result<Seq<Seq<char>>, Seq<char>> {
    match shell_split(line) {
        Some(words) => Ok(words),
        None => Err("missing closing quote"@),
    }
}

/// The job that a document describes, given the error with which its schedule
/// was refused as a cron expression, if it was, and the words of its command
/// line or the error with which that was refused.
pub open spec fn job_of(
    path: Seq<char>,
    doc: DocumentView,
    refusal: Option<Seq<char>>,
    words: Result<Seq<Seq<char>>, Seq<char>>,
) -> JobView {
    let name = Some(job_name(path, doc));
    let schedule = match doc.text_at("schedule"@) {
        Some(expr) => schedule_of(expr, refusal),
        None => Ok(ScheduleView::Never),
    };
    match schedule {
        Err(e) => JobView::broken(name, path, e),
        Ok(schedule) => if doc.text_at("command"@) is None {
            JobView::broken(name, path, "No command found in jobfile"@)
        } else {
            match words {
                Err(e) => JobView::broken(name, path, "Invalid command found in jobfile: "@ + e),
                Ok(words) => JobView {
                    name: name->0,
                    path,
                    command: words,
                    workdir: doc.text_at("workdir"@),
                    schedule,
                    ..JobView::blank()
                },
            }
        },
    }
}

/// The job that a document describes.
pub open spec fn job_of_document(path: Seq<char>, doc: DocumentView) -> JobView {
    job_of(
        path,
        doc,
        cron_error(doc.text_at("schedule"@)->0),
        command_words(doc.text_at("command"@)->0),
    )
}

/// Whether a job file has a first document to read, if it is YAML at all, and
/// whether the schedule in it, if there is one, has a word in it.
pub open spec fn jobfile_is_readable(yaml: Seq<char>) -> bool {
    yaml_documents(yaml) matches Ok(docs) ==> docs.len() > 0 && schedule_has_word(docs[0])
}

/// The job that a job file describes.
pub open spec fn job_of_file(path: Seq<char>, yaml: Seq<char>) -> JobView {
    match yaml_documents(yaml) {
        Ok(docs) => job_of_document(path, docs[0]),
        Err(e) => JobView::broken(None, path, "Invalid YAML in jobfile: "@ + e),
    }
}

impl Default for Job {
    fn default() -> (j: Job)
        ensures
            j@ == JobView::blank(),
    {
        let command: Vec<String> = Vec::new();
        assert(texts(command@) == Seq::<Seq<char>>::empty());
        Job {
            name: String::new(),
            path: String::new(),
            command,
            workdir: None,
            schedule: Schedule::Never,
            input: None,
            error: None,
            running: false,
            laststart: None,
            lastrun: None,
            skipped: 0,
            history: false,
            update: false,
        }
    }
}

impl Clone for Job {
    fn clone(&self) -> (r: Job)
        ensures
            r@ == self@,
    {
        Job {
            name: self.name.clone(),
            path: self.path.clone(),
            command: clone_texts(&self.command),
            workdir: clone_opt(&self.workdir),
            schedule: self.schedule.clone(),
            input: clone_opt(&self.input),
            error: clone_opt(&self.error),
            running: self.running,
            laststart: self.laststart,
            lastrun: match &self.lastrun {
                Some(run) => Some(run.clone()),
                None => None,
            },
            skipped: self.skipped,
            history: self.history,
            update: self.update,
        }
    }
}

impl Job {
    /// A copy of the job without what is known of its runs, but for whether it
    /// runs and whether runs are kept.
    pub fn clone_empty(&self) -> (r: Job)
        ensures
            r@ == self@.emptied(),
    {
        Job {
            name: self.name.clone(),
            path: self.path.clone(),
            command: clone_texts(&self.command),
            workdir: clone_opt(&self.workdir),
            schedule: self.schedule.clone(),
            input: None,
            error: None,
            running: self.running,
            laststart: None,
            lastrun: None,
            skipped: 0,
            history: self.history,
            update: false,
        }
    }

    /// A job that cannot run, named after its path if it has no other name.
    pub fn from_error(name: Option<String>, path: String, error: String) -> (r: Job)
        ensures
            r@ == JobView::broken(opt_text(name), path@, error@),
    {
        let name = match name {
            Some(name) => name,
            None => trim_dot_slash(&path),
        };
        let mut job = Job::default();
        job.name = name;
        job.path = path;
        job.error = Some(error);
        job
    }

    /// Makes a job of a document, given the error with which its schedule was
    /// refused as a cron expression, if it was, and the words of its command
    /// line or the error with which that was refused.
    pub fn from_parts(
        path: String,
        doc: &Document,
        refusal: Option<String>,
        words: Result<Vec<String>, String>,
    ) -> (r: Job)
        requires
            schedule_has_word(doc@),
        ensures
            r@ == job_of(
                path@,
                doc@,
                opt_text(refusal),
                match words {
                    Ok(words) => Ok(texts(words@)),
                    Err(e) => Err(e@),
                },
            ),
    {
        let name = match doc.text_at("name") {
            Some(name) => trim_dot_slash(name),
            None => trim_dot_slash(&path),
        };
        let schedule = match doc.text_at("schedule") {
            Some(expr) => match Schedule::read(expr, refusal) {
                Ok(schedule) => schedule,
                Err(e) => {
                    return Job::from_error(Some(name), path, e);
                },
            },
            None => Schedule::Never,
        };
        if doc.text_at("command").is_none() {
            return Job::from_error(Some(name), path, owned("No command found in jobfile"));
        }
        match words {
            Err(e) => Job::from_error(
                Some(name),
                path,
                chained("Invalid command found in jobfile: ", &e),
            ),
            Ok(words) => {
                let workdir = match doc.text_at("workdir") {
                    Some(dir) => Some(dir.clone()),
                    None => None,
                };
                let mut job = Job::default();
                job.name = name;
                job.path = path;
                job.command = words;
                job.workdir = workdir;
                job.schedule = schedule;
                job
            },
        }
    }

    /// Makes a job of a document.
    pub fn from_document(path: String, doc: &Document) -> (r: Job)
        requires
            schedule_has_word(doc@),
        ensures
            r@ == job_of_document(path@, doc@),
    {
        let refusal = match doc.text_at("schedule") {
            Some(expr) => if Schedule::is_cron(expr) {
                check_cron(expr)
            } else {
                None
            },
            None => None,
        };
        let words = match doc.text_at("command") {
            Some(line) => split_command(line),
            None => Ok(Vec::new()),
        };
        Job::from_parts(path, doc, refusal, words)
    }

    /// Makes a job of a job file that has a first document, in which a
    /// schedule has a word in it.
    pub fn from_yaml(path: String, yaml: String) -> (r: Job)
        requires
            jobfile_is_readable(yaml@),
        ensures
            r@ == job_of_file(path@, yaml@),
    {
        match load_yaml(&yaml) {
            Ok(docs) => {
                assert(documents_view(docs@)[0] == docs@[0]@);
                Job::from_document(path, &docs[0])
            },
            Err(e) => Job::from_error(None, path, chained("Invalid YAML in jobfile: ", &e)),
        }
    }

    /// Makes a job of a job file, if that can be read.
    pub fn try_from_yaml(path: String, yaml: String) -> (r: Option<Job>)
        ensures
            r is Some <==> jobfile_is_readable(yaml@),
            r matches Some(job) ==> job@ == job_of_file(path@, yaml@),
    {
        if let Ok(docs) = load_yaml(&yaml) {
            if docs.len() == 0 {
                return None;
            }
            assert(documents_view(docs@)[0] == docs@[0]@);
            if let Some(expr) = docs[0].text_at("schedule") {
                let words = split_words(expr);
                assert(words@.len() == texts(words@).len());
                if words.len() == 0 {
                    return None;
                }
            }
        }
        Some(Job::from_yaml(path, yaml))
    }

    /// Makes a job of the bytes of a job file, if that can be read.
    pub fn try_from_bytes(path: String, bytes: &Vec<u8>) -> (r: Option<Job>)
        ensures
            r is Some <==> jobfile_is_readable(lossy_text(bytes@)),
            r matches Some(job) ==> job@ == job_of_file(path@, lossy_text(bytes@)),
    {
        Job::try_from_yaml(path, text_from_bytes(bytes))
    }

    /// The job as the web interface shows it, given the next instant of its
    /// cron expression.
    pub fn to_json_at(&self, upcoming: Option<Timestamp>) -> (r: JsonJob)
        requires
            self@.can_be_shown(),
        ensures
            r@ == self@.json(upcoming),
    {
        JsonJob {
            path: self.path.clone(),
            name: self.name.clone(),
            command: join_spaced(&self.command),
            nextrun: match &self.schedule {
                Schedule::Schedule(_) => upcoming,
                _ => None,
            },
            after: match &self.schedule {
                Schedule::After(after) => Some(join_spaced(after)),
                _ => None,
            },
            error: clone_opt(&self.error),
            running: self.running,
            laststart: self.laststart,
            lastrun: match &self.lastrun {
                Some(run) => Some(run.to_json()),
                None => None,
            },
            skipped: self.skipped,
            history: self.history,
        }
    }

    /// The job as the web interface shows it, with whatever instant its cron
    /// expression gives next.
    pub fn to_json(&self) -> (r: JsonJob)
        requires
            self@.can_be_shown(),
        ensures
            r@ == self@.json(r.nextrun),
            self@.schedule.allows(r.nextrun),
            self@.schedule.gave(r.nextrun),
    {
        self.to_json_at(self.schedule.upcoming())
    }
}

/// Emptying a job a second time changes nothing.
pub proof fn emptied_is_stable(job: JobView)
    ensures
        job.emptied().emptied() == job.emptied(),
{
}

/// A job file never makes a job that runs, has run, is being updated or keeps
/// history; and one with an error has no command and never starts.
pub proof fn jobfile_job_is_fresh(path: Seq<char>, yaml: Seq<char>)
    ensures
        ({
            let job = job_of_file(path, yaml);
            &&& job.path == path
            &&& !job.running && !job.update && !job.history && job.skipped == 0
            &&& job.laststart is None && job.lastrun is None && job.input is None
            &&& job.error is Some ==> job.command.len() == 0 && job.schedule is Never
        }),
{
}

/// Every cron expression in a job made of a job file is one that `cron`
/// accepts.
pub proof fn jobfile_cron_is_accepted(path: Seq<char>, yaml: Seq<char>)
    ensures
        job_of_file(path, yaml).schedule matches ScheduleView::Schedule(expr) ==> cron_error(
            expr,
        ) is None,
{
}

} // verus!
