//! What the web interface answers.

use crate::clock::Timestamp;
use crate::config::{Config, ConfigView};
use crate::job::{Job, JobView, JsonJob, JsonJobView};
use crate::order::{byte_views, is_sorted_order, sorted_places};
use crate::outside::{lossy_text, text_from_bytes};
use crate::run::{ExitStatus, JsonRun};
use crate::text::{chained, opt_text, owned, parse_unsigned, text_is, unsigned_of};
use vstd::prelude::*;
use vstd::string::*;
use vstd::utf8::encode_utf8;

verus! {

/// Why a request is refused.
#[derive(Clone, Copy, Debug, PartialEq, Eq, Structural)]
pub enum Refusal {
    BadRequest,
    NotFound,
    InternalServerError,
}

/// A run that was kept, as it is found on disk: its name, the status in its
/// status file and that status in words, and the texts of its other files.
#[derive(Debug)]
pub struct RunEntry {
    pub name: String,
    pub status: Option<ExitStatus>,
    pub status_words: String,
    pub duration: Option<String>,
    pub log: String,
    pub err: String,
}

/// The model of a run as it is found on disk.
pub struct RunEntryView {
    pub name: Seq<char>,
    pub status: Option<ExitStatus>,
    pub status_words: Seq<char>,
    pub duration: Option<Seq<char>>,
    pub log: Seq<char>,
    pub err: Seq<char>,
}

impl View for RunEntry {
    type V = RunEntryView;

    open spec fn view(&self) -> RunEntryView {
        RunEntryView {
            name: self.name@,
            status: self.status,
            status_words: self.status_words@,
            duration: opt_text(self.duration),
            log: self.log@,
            err: self.err@,
        }
    }
}

/// A run that was kept, as the web interface lists it.
#[derive(Debug)]
pub struct JsonRunRecord {
    pub start: String,
    pub status: String,
    pub statustext: String,
    pub duration: Option<u64>,
    pub log: String,
    pub err: String,
}

/// The model of a run as the web interface lists it.
pub struct JsonRunRecordView {
    pub start: Seq<char>,
    pub status: Seq<char>,
    pub statustext: Seq<char>,
    pub duration: Option<u64>,
    pub log: Seq<char>,
    pub err: Seq<char>,
}

impl View for JsonRunRecord {
    type V = JsonRunRecordView;

    open spec fn view(&self) -> JsonRunRecordView {
        JsonRunRecordView {
            start: self.start@,
            status: self.status@,
            statustext: self.statustext@,
            duration: self.duration,
            log: self.log@,
            err: self.err@,
        }
    }
}

/// A run as the web interface lists it, given the name of the run that is
/// under way, if one is.
pub open spec fn record_of(entry: RunEntryView, running: Option<Seq<char>>) -> JsonRunRecordView {
    JsonRunRecordView {
        start: entry.name,
        status: if running == Some(entry.name) {
            "Running"@
        } else {
            match entry.status {
                Some(status) => if status.succeeded() {
                    "OK"@
                } else {
                    "Failure"@
                },
                None => "Unknown"@,
            }
        },
        statustext: if running == Some(entry.name) {
            seq![]
        } else {
            match entry.status {
                Some(status) => if status.succeeded() {
                    seq![]
                } else {
                    entry.status_words
                },
                None => "exit status not recorded"@,
            }
        },
        duration: match entry.duration {
            Some(text) => unsigned_of(text),
            None => None,
        },
        log: entry.log,
        err: entry.err,
    }
}

/// The models of runs as they are found on disk.
pub open spec fn entry_views(entries: Seq<RunEntry>) -> Seq<RunEntryView> {
    entries.map_values(|e: RunEntry| e@)
}

/// The models of runs as the web interface lists them.
pub open spec fn record_views(records: Seq<JsonRunRecord>) -> Seq<JsonRunRecordView> {
    records.map_values(|r: JsonRunRecord| r@)
}

/// The bytes of the names of runs, by which they are ordered.
pub open spec fn name_bytes(entries: Seq<RunEntryView>) -> Seq<Seq<u8>> {
    entries.map_values(|e: RunEntryView| encode_utf8(e.name))
}

/// Makes the list entry of a run.
pub fn run_record(entry: &RunEntry, running: &Option<String>) -> (r: JsonRunRecord)
    ensures
        r@ == record_of(entry@, opt_text(*running)),
{
    let under_way = match running {
        Some(name) => text_is(name, &entry.name),
        None => false,
    };
    let mut status: String = match entry.status {
        Some(s) => if s.success() {
            owned("OK")
        } else {
            owned("Failure")
        },
        None => owned("Unknown"),
    };
    let mut statustext: String = match entry.status {
        Some(s) => if s.success() {
            String::new()
        } else {
            entry.status_words.clone()
        },
        None => owned("exit status not recorded"),
    };
    if under_way {
        status = owned("Running");
        statustext = String::new();
    }
    let duration = match &entry.duration {
        Some(text) => parse_unsigned(text),
        None => None,
    };
    JsonRunRecord {
        start: entry.name.clone(),
        status,
        statustext,
        duration,
        log: entry.log.clone(),
        err: entry.err.clone(),
    }
}

/// Lists the runs of a job, by name.
pub fn get_runs(entries: &Vec<RunEntry>, running: &Option<String>) -> (r: Vec<JsonRunRecord>)
    ensures
        exists|places: Seq<usize>|
            {
                &&& #[trigger] is_sorted_order(name_bytes(entry_views(entries@)), places)
                &&& record_views(r@) == places.map_values(
                    |p: usize| record_of(entry_views(entries@)[p as int], opt_text(*running)),
                )
            },
{
    let ghost all = entry_views(entries@);
    let mut keys: Vec<Vec<u8>> = Vec::new();
    let mut i: usize = 0;
    while i < entries.len()
        invariant
            i <= entries@.len(),
            all == entry_views(entries@),
            byte_views(keys@) == name_bytes(all).take(i as int),
        decreases entries.len() - i,
    {
        let ghost before = byte_views(keys@);
        let key = entries[i].name.as_str().as_bytes_vec();
        assert(key@ == name_bytes(all)[i as int]);
        keys.push(key);
        assert(byte_views(keys@) == before.push(key@));
        assert(name_bytes(all).take(i + 1) == name_bytes(all).take(i as int).push(key@));
        i = i + 1;
    }
    assert(name_bytes(all).take(i as int) == name_bytes(all));
    let places = sorted_places(&keys);
    let ghost listed = places@.map_values(
        |p: usize| record_of(all[p as int], opt_text(*running)),
    );
    let mut r: Vec<JsonRunRecord> = Vec::new();
    let mut k: usize = 0;
    while k < places.len()
        invariant
            k <= places@.len() == entries@.len(),
            all == entry_views(entries@),
            is_sorted_order(name_bytes(all), places@),
            listed == places@.map_values(
                |p: usize| record_of(all[p as int], opt_text(*running)),
            ),
            record_views(r@) == listed.take(k as int),
        decreases places.len() - k,
    {
        let ghost before = record_views(r@);
        let p: usize = places[k];
        assert(p < name_bytes(all).len());
        let record = run_record(&entries[p], running);
        assert(record@ == listed[k as int]);
        r.push(record);
        assert(record_views(r@) == before.push(record@));
        assert(listed.take(k + 1) == listed.take(k as int).push(record@));
        k = k + 1;
    }
    assert(listed.take(k as int) == listed);
    r
}

/// The models of jobs as the web interface shows them.
pub open spec fn json_views(jobs: Seq<JsonJob>) -> Seq<JsonJobView> {
    jobs.map_values(|j: JsonJob| j@)
}

impl ConfigView {
    /// Whether every job can be shown.
    pub open spec fn can_be_shown(self) -> bool {
        forall|k: Seq<char>| #[trigger] self.jobs.contains_key(k) ==> self.jobs[k].can_be_shown()
    }

    /// All jobs, as the web interface shows them, given the next instant of
    /// each by its cron expression.
    pub open spec fn shown(self, upcoming: Seq<Option<Timestamp>>) -> Seq<JsonJobView> {
        Seq::new(self.order.len(), |i: int| self.jobs[self.order[i]].json(upcoming[i]))
    }

    /// The name of the run of a job that is under way.
    pub open spec fn running_name(self, path: Seq<char>) -> Option<Seq<char>> {
        let job = self.jobs[path];
        if job.running && job.laststart is Some {
            Some(job.laststart->0.run_name_text())
        } else {
            None
        }
    }
}

impl Config {
    /// All jobs, as the web interface shows them, given the next instant of
    /// each by its cron expression.
    pub fn get_jobs_at(&self, upcoming: &Vec<Option<Timestamp>>) -> (r: Vec<JsonJob>)
        requires
            self@.can_be_shown(),
            upcoming@.len() == self@.order.len(),
        ensures
            json_views(r@) == self@.shown(upcoming@),
    {
        let mut r: Vec<JsonJob> = Vec::new();
        let n: usize = self.jobs.len();
        let mut i: usize = 0;
        while i < n
            invariant
                i <= n == self@.order.len() == upcoming@.len(),
                self@.can_be_shown(),
                json_views(r@) == self@.shown(upcoming@).take(i as int),
            decreases n - i,
        {
            let ghost before = json_views(r@);
            let job = self.jobs.value_at(i);
            assert(self@.jobs.contains_key(self@.order[i as int]));
            assert(self@.jobs[self@.order[i as int]] == job@);
            let shown = job.to_json_at(upcoming[i]);
            r.push(shown);
            assert(json_views(r@) == before.push(shown@));
            assert(self@.shown(upcoming@).take(i + 1) == self@.shown(upcoming@).take(
                i as int,
            ).push(shown@));
            i = i + 1;
        }
        assert(self@.shown(upcoming@).take(i as int) == self@.shown(upcoming@));
        r
    }

    /// All jobs, as the web interface shows them, with whatever their cron
    /// expressions give next.
    pub fn get_jobs(&self) -> (r: Vec<JsonJob>)
        requires
            self@.can_be_shown(),
        ensures
            exists|upcoming: Seq<Option<Timestamp>>|
                {
                    &&& self@.allows(upcoming)
                    &&& self@.gave(upcoming)
                    &&& json_views(r@) == #[trigger] self@.shown(upcoming)
                },
    {
        let upcoming = self.upcoming();
        self.get_jobs_at(&upcoming)
    }

    /// The last run of a job.
    pub fn get_job(&self, path: &str) -> (r: Result<JsonRun, Refusal>)
        requires
            self@.jobs.contains_key(path@) ==> self@.jobs[path@].can_be_shown(),
        ensures
            match r {
                Ok(run) => self@.jobs.contains_key(path@) && self@.jobs[path@].lastrun is Some
                    && run@ == self@.jobs[path@].lastrun->0.json(),
                Err(e) => e == Refusal::NotFound && (self@.jobs.contains_key(path@)
                    ==> self@.jobs[path@].lastrun is None),
            },
    {
        match self.jobs.get(path) {
            Some(job) => match &job.lastrun {
                Some(run) => Ok(run.to_json()),
                None => Err(Refusal::NotFound),
            },
            None => Err(Refusal::NotFound),
        }
    }

    /// Answers a request for the runs of a job, given whether it has a
    /// directory of them: the name of the run that is under way, if one is.
    pub fn runs_request(&self, path: &str, has_runs: bool) -> (r: Result<Option<String>, Refusal>)
        ensures
            match r {
                Ok(running) => has_runs && self@.jobs.contains_key(path@) && opt_text(running)
                    == self@.running_name(path@),
                Err(e) => e == Refusal::NotFound && (!has_runs || !self@.jobs.contains_key(path@)),
            },
    {
        if !has_runs {
            return Err(Refusal::NotFound);
        }
        match self.jobs.get(path) {
            Some(job) => if job.running {
                match job.laststart {
                    Some(start) => Ok(Some(start.run_name())),
                    None => Ok(None),
                }
            } else {
                Ok(None)
            },
            None => Err(Refusal::NotFound),
        }
    }

    /// Answers a request for the job file of a job: only of one that is there.
    pub fn config_request(&self, path: &str) -> (r: Result<(), Refusal>)
        ensures
            r is Ok <==> self@.jobs.contains_key(path@),
            r matches Err(e) ==> e == Refusal::BadRequest,
    {
        if self.jobs.contains_key(path) {
            Ok(())
        } else {
            Err(Refusal::BadRequest)
        }
    }

    /// Answers a request to start a job: the job to start.
    pub fn do_start(&self, path: &str, now: Timestamp) -> (r: Result<Job, Refusal>)
        ensures
            match r {
                Ok(job) => self@.jobs.contains_key(path@) && job@ == (JobView {
                    laststart: Some(now),
                    ..self@.jobs[path@].emptied()
                }),
                Err(e) => e == Refusal::NotFound && !self@.jobs.contains_key(path@),
            },
    {
        match self.jobs.get(path) {
            Some(job) => {
                let mut copy = job.clone_empty();
                copy.laststart = Some(now);
                Ok(copy)
            },
            None => Err(Refusal::NotFound),
        }
    }
}

/// What became of reading a file: it could not be opened, or not be read, or
/// it holds bytes.
#[derive(Debug)]
pub enum FileRead {
    Missing,
    Unreadable,
    Bytes(Vec<u8>),
}

/// Answers with a job file, given what became of reading it.
pub fn config_reply(file: FileRead) -> (r: Result<String, Refusal>)
    ensures
        match file {
            FileRead::Missing => r matches Err(e) && e == Refusal::NotFound,
            FileRead::Unreadable => r matches Err(e) && e == Refusal::InternalServerError,
            FileRead::Bytes(bytes) => r matches Ok(text) && text@ == lossy_text(bytes@),
        },
{
    match file {
        FileRead::Missing => Err(Refusal::NotFound),
        FileRead::Unreadable => Err(Refusal::InternalServerError),
        FileRead::Bytes(bytes) => Ok(text_from_bytes(&bytes)),
    }
}

/// Answers a request for the output of a run, given whether the run has a
/// directory and whether its two output files could be opened.
pub fn get_output(has_dir: bool, out_opened: bool, err_opened: bool) -> (r: Result<(), Refusal>)
    ensures
        r is Ok <==> has_dir && out_opened && err_opened,
        r matches Err(e) ==> e == if has_dir {
            Refusal::InternalServerError
        } else {
            Refusal::NotFound
        },
{
    if !has_dir {
        Err(Refusal::NotFound)
    } else if !out_opened || !err_opened {
        Err(Refusal::InternalServerError)
    } else {
        Ok(())
    }
}

/// What happened to a file of a run: bytes were added to it, it was written
/// and closed, or something else.
#[derive(Clone, Copy, Debug, PartialEq, Eq, Structural)]
pub enum FileChange {
    Data,
    Closed,
    Other,
}

/// What to send next of a run that is under way: nothing, what is new in one
/// of its output files, or its status, which is the last thing to send.
#[derive(Clone, Copy, Debug, PartialEq, Eq, Structural)]
pub enum OutputAction {
    Ignore,
    SendOut,
    SendErr,
    SendStatus,
}

/// What to send after a change to the file of that name.
pub open spec fn output_on(change: FileChange, name: Seq<char>) -> OutputAction {
    match change {
        FileChange::Data => if name == "out"@ {
            OutputAction::SendOut
        } else if name == "err"@ {
            OutputAction::SendErr
        } else {
            OutputAction::Ignore
        },
        FileChange::Closed => if name == "status"@ {
            OutputAction::SendStatus
        } else {
            OutputAction::Ignore
        },
        FileChange::Other => OutputAction::Ignore,
    }
}

/// Decides what to send after a change to the file of that name.
pub fn output_action(change: FileChange, name: &str) -> (action: OutputAction)
    ensures
        action == output_on(change, name@),
{
    match change {
        FileChange::Data => if text_is(name, "out") {
            OutputAction::SendOut
        } else if text_is(name, "err") {
            OutputAction::SendErr
        } else {
            OutputAction::Ignore
        },
        FileChange::Closed => if text_is(name, "status") {
            OutputAction::SendStatus
        } else {
            OutputAction::Ignore
        },
        FileChange::Other => OutputAction::Ignore,
    }
}

/// A piece of the output of a run: where it comes from, and its text.
#[derive(Debug)]
pub struct RunOutput {
    pub field: String,
    pub value: String,
}

/// The model of a piece of the output of a run.
pub struct RunOutputView {
    pub field: Seq<char>,
    pub value: Seq<char>,
}

impl View for RunOutput {
    type V = RunOutputView;

    open spec fn view(&self) -> RunOutputView {
        RunOutputView { field: self.field@, value: self.value@ }
    }
}

/// The piece of output that bytes of an output file are: of the standard
/// output or of the standard error.
pub open spec fn piece_of(is_err: bool, bytes: Seq<u8>) -> RunOutputView {
    RunOutputView {
        field: if is_err {
            "stderr"@
        } else {
            "stdout"@
        },
        value: lossy_text(bytes),
    }
}

/// The last piece of output, which says how a run ended, given its status and
/// that status in words.
pub open spec fn ending_of(status: Option<ExitStatus>, status_words: Seq<char>) -> RunOutputView {
    RunOutputView {
        field: "status"@,
        value: match status {
            Some(status) => if status.succeeded() {
                "finished successfully"@
            } else {
                "failed with "@ + status_words
            },
            None => "Failed to read exit status"@,
        },
    }
}

/// The piece of output that bytes of an output file are: of the standard
/// output or of the standard error.
pub fn output_piece(is_err: bool, bytes: &Vec<u8>) -> (r: RunOutput)
    ensures
        r@ == piece_of(is_err, bytes@),
{
    let field = if is_err {
        owned("stderr")
    } else {
        owned("stdout")
    };
    RunOutput { field, value: text_from_bytes(bytes) }
}

/// The last piece of output, which says how a run ended, given its status and
/// that status in words.
pub fn output_status(status: Option<ExitStatus>, status_words: &str) -> (r: RunOutput)
    ensures
        r@ == ending_of(status, status_words@),
{
    let value = match status {
        Some(status) => if status.success() {
            owned("finished successfully")
        } else {
            chained("failed with ", status_words)
        },
        None => owned("Failed to read exit status"),
    };
    RunOutput { field: owned("status"), value }
}

/// How far the feed of the output of a run has come: the standard output is
/// being read, for the first time or again; the standard error is being read;
/// it waits for a change; the status is being read; it is over.
#[derive(Clone, Copy, Debug, PartialEq, Eq, Structural)]
pub enum FeedStage {
    ReadingOut(bool),
    ReadingErr,
    Waiting,
    ReadingStatus,
    Over,
}

/// What the feed was waiting for: bytes of the file that is being read, or
/// that there are no more for now; a change to a file, or that none will come;
/// or what the status file says, with that status in words.
#[derive(Debug)]
pub enum FeedEvent {
    Read(Vec<u8>),
    Drained,
    Changed(FileChange, String),
    Unwatched,
    Status(Option<ExitStatus>, String),
}

/// The model of what the feed was waiting for.
pub enum FeedEventView {
    Read(Seq<u8>),
    Drained,
    Changed(FileChange, Seq<char>),
    Unwatched,
    Status(Option<ExitStatus>, Seq<char>),
}

impl View for FeedEvent {
    type V = FeedEventView;

    open spec fn view(&self) -> FeedEventView {
        match self {
            FeedEvent::Read(bytes) => FeedEventView::Read(bytes@),
            FeedEvent::Drained => FeedEventView::Drained,
            FeedEvent::Changed(change, name) => FeedEventView::Changed(*change, name@),
            FeedEvent::Unwatched => FeedEventView::Unwatched,
            FeedEvent::Status(status, words) => FeedEventView::Status(*status, words@),
        }
    }
}

impl FeedStage {
    /// Whether an event is one that the feed waits for.
    pub open spec fn awaits(self, event: FeedEventView) -> bool {
        match self {
            FeedStage::ReadingOut(_) | FeedStage::ReadingErr => event is Read || event is Drained,
            FeedStage::Waiting => event is Changed || event is Unwatched,
            FeedStage::ReadingStatus => event is Status,
            FeedStage::Over => false,
        }
    }

    /// How far the feed is after an event: it reads a file until there is no
    /// more for now, at first one output file after the other; then it follows
    /// the changes until the status was read or no more changes come.
    pub open spec fn next(self, event: FeedEventView) -> FeedStage {
        match event {
            FeedEventView::Read(_) => self,
            FeedEventView::Drained => if self == FeedStage::ReadingOut(true) {
                FeedStage::ReadingErr
            } else {
                FeedStage::Waiting
            },
            FeedEventView::Changed(change, name) => match output_on(change, name) {
                OutputAction::SendOut => FeedStage::ReadingOut(false),
                OutputAction::SendErr => FeedStage::ReadingErr,
                OutputAction::SendStatus => FeedStage::ReadingStatus,
                OutputAction::Ignore => FeedStage::Waiting,
            },
            FeedEventView::Unwatched => FeedStage::Over,
            FeedEventView::Status(_, _) => FeedStage::Over,
        }
    }

    /// What the feed sends upon an event.
    pub open spec fn sent(self, event: FeedEventView) -> Option<RunOutputView> {
        match event {
            FeedEventView::Read(bytes) => Some(piece_of(self is ReadingErr, bytes)),
            FeedEventView::Status(status, words) => Some(ending_of(status, words)),
            _ => None,
        }
    }

    /// Goes on with the feed of the output of a run: how far it then is, and
    /// what it sends.
    pub fn step(self, event: FeedEvent) -> (r: (FeedStage, Option<RunOutput>))
        requires
            self.awaits(event@),
        ensures
            r.0 == self.next(event@),
            match r.1 {
                Some(piece) => self.sent(event@) == Some(piece@),
                None => self.sent(event@) is None,
            },
    {
        match event {
            FeedEvent::Read(bytes) => {
                let is_err = match self {
                    FeedStage::ReadingErr => true,
                    _ => false,
                };
                (self, Some(output_piece(is_err, &bytes)))
            },
            FeedEvent::Drained => match self {
                FeedStage::ReadingOut(true) => (FeedStage::ReadingErr, None),
                _ => (FeedStage::Waiting, None),
            },
            FeedEvent::Changed(change, name) => match output_action(change, &name) {
                OutputAction::SendOut => (FeedStage::ReadingOut(false), None),
                OutputAction::SendErr => (FeedStage::ReadingErr, None),
                OutputAction::SendStatus => (FeedStage::ReadingStatus, None),
                OutputAction::Ignore => (FeedStage::Waiting, None),
            },
            FeedEvent::Unwatched => (FeedStage::Over, None),
            FeedEvent::Status(status, words) => (
                FeedStage::Over,
                Some(output_status(status, &words)),
            ),
        }
    }
}

} // verus!
