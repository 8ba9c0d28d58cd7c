//! The steps of a run, from its command to its record.

use crate::job::{Job, JobView};
use crate::run::{duration_file, status_file, status_file_text, ExitStatus, Run, RunView};
use crate::text::{chained, clone_opt, decimal, holds_char, opt_text, texts};
use vstd::prelude::*;
use vstd::string::*;

verus! {

/// How far a run has come: its executable is being located, its process
/// started, its directory made; it runs; its status is being saved, or its
/// length in seconds; it is over.
#[derive(Clone, Copy, Debug, PartialEq, Eq, Structural)]
pub enum Stage {
    Locating,
    Spawning,
    MakingDir,
    Running,
    SavingStatus(u64),
    SavingDuration,
    Over,
}

/// A run under way.
pub struct Execution {
    pub job: Job,
    pub stage: Stage,
}

/// The model of a run under way.
pub struct ExecutionView {
    pub job: JobView,
    pub stage: Stage,
}

impl View for Execution {
    type V = ExecutionView;

    open spec fn view(&self) -> ExecutionView {
        ExecutionView { job: self.job@, stage: self.stage }
    }
}

/// How a process ended, after how many seconds, and what it wrote.
pub struct Ending {
    pub status: ExitStatus,
    pub secs: u64,
    pub stdout: Vec<u8>,
    pub stderr: Vec<u8>,
}

/// The model of how a process ended.
pub struct EndingView {
    pub status: ExitStatus,
    pub secs: u64,
    pub stdout: Seq<u8>,
    pub stderr: Seq<u8>,
}

impl View for Ending {
    type V = EndingView;

    open spec fn view(&self) -> EndingView {
        EndingView {
            status: self.status,
            secs: self.secs,
            stdout: self.stdout@,
            stderr: self.stderr@,
        }
    }
}

/// What became of a step.
pub enum Event {
    Located(Result<String, String>),
    Spawned(Result<(), String>),
    DirMade(bool),
    Ended(Result<Ending, String>),
    StatusSaved(bool),
    DurationSaved,
}

/// The model of what became of a step.
pub enum EventView {
    Located(Result<Seq<char>, Seq<char>>),
    Spawned(Result<(), Seq<char>>),
    DirMade(bool),
    Ended(Result<EndingView, Seq<char>>),
    StatusSaved(bool),
    DurationSaved,
}

impl View for Event {
    type V = EventView;

    open spec fn view(&self) -> EventView {
        match self {
            Event::Located(Ok(program)) => EventView::Located(Ok(program@)),
            Event::Located(Err(e)) => EventView::Located(Err(e@)),
            Event::Spawned(Ok(_)) => EventView::Spawned(Ok(())),
            Event::Spawned(Err(e)) => EventView::Spawned(Err(e@)),
            Event::DirMade(made) => EventView::DirMade(*made),
            Event::Ended(Ok(ending)) => EventView::Ended(Ok(ending@)),
            Event::Ended(Err(e)) => EventView::Ended(Err(e@)),
            Event::StatusSaved(saved) => EventView::StatusSaved(*saved),
            Event::DurationSaved => EventView::DurationSaved,
        }
    }
}

/// What to do next: locate an executable; start a program with arguments in a
/// directory; make the directory of the run, by its name; feed the process
/// its input and wait for it; save the status or the length of the run; or
/// report the job.
pub enum Action {
    Locate(String),
    Spawn(String, Vec<String>, Option<String>),
    MakeDir(String),
    Wait(Option<String>),
    SaveStatus(String),
    SaveDuration(String),
    Report,
}

/// The model of what to do next.
pub enum ActionView {
    Locate(Seq<char>),
    Spawn(Seq<char>, Seq<Seq<char>>, Option<Seq<char>>),
    MakeDir(Seq<char>),
    Wait(Option<Seq<char>>),
    SaveStatus(Seq<char>),
    SaveDuration(Seq<char>),
    Report,
}

impl View for Action {
    type V = ActionView;

    open spec fn view(&self) -> ActionView {
        match self {
            Action::Locate(program) => ActionView::Locate(program@),
            Action::Spawn(program, args, dir) => ActionView::Spawn(
                program@,
                texts(args@),
                opt_text(*dir),
            ),
            Action::MakeDir(name) => ActionView::MakeDir(name@),
            Action::Wait(input) => ActionView::Wait(opt_text(*input)),
            Action::SaveStatus(text) => ActionView::SaveStatus(text@),
            Action::SaveDuration(text) => ActionView::SaveDuration(text@),
            Action::Report => ActionView::Report,
        }
    }
}

impl JobView {
    /// Whether there is something to run.
    pub open spec fn can_run(self) -> bool {
        self.command.len() > 0
    }

    /// The start of a program with the arguments and in the directory of the
    /// job.
    pub open spec fn spawn(self, program: Seq<char>) -> ActionView {
        ActionView::Spawn(program, self.command.skip(1), self.workdir)
    }

    /// The job with the record of a run that ended.
    pub open spec fn with_run(self, ending: EndingView) -> JobView {
        JobView {
            lastrun: Some(
                RunView {
                    start: self.laststart->0,
                    duration: Some(ending.secs),
                    status: Some(ending.status),
                    stdout: ending.stdout,
                    stderr: ending.stderr,
                },
            ),
            ..self
        }
    }
}

/// The first step of a run: an executable that is named by a path is located,
/// any other is left to the system to find.
pub open spec fn first_step(job: JobView) -> (ExecutionView, ActionView) {
    let program = job.command[0];
    if program.contains('/') {
        (ExecutionView { job, stage: Stage::Locating }, ActionView::Locate(program))
    } else {
        (ExecutionView { job, stage: Stage::Spawning }, job.spawn(program))
    }
}

impl ExecutionView {
    /// Whether an event is one of the step that is under way.
    pub open spec fn awaits(self, event: EventView) -> bool {
        match self.stage {
            Stage::Locating => event is Located,
            Stage::Spawning => event is Spawned,
            Stage::MakingDir => event is DirMade,
            Stage::Running => event is Ended,
            Stage::SavingStatus(_) => event is StatusSaved,
            Stage::SavingDuration => event is DurationSaved,
            Stage::Over => false,
        }
    }

    /// Whether the run can go on with an event: it is one of the step that is
    /// under way, and the start of the run is known where it is needed, which
    /// is from the start of the process on.
    pub open spec fn takes(self, event: EventView) -> bool {
        &&& self.job.can_run()
        &&& self.awaits(event)
        &&& event matches EventView::Spawned(Ok(_)) ==> self.job.laststart is Some
        &&& event matches EventView::Ended(Ok(_)) ==> self.job.laststart is Some
    }

    /// The end of the run, reported with the job as it is, but that it no
    /// longer runs.
    pub open spec fn over(job: JobView) -> (ExecutionView, ActionView) {
        (
            ExecutionView { job: JobView { running: false, ..job }, stage: Stage::Over },
            ActionView::Report,
        )
    }

    /// The end of the run, reported with an error.
    pub open spec fn failed(self, error: Seq<char>) -> (ExecutionView, ActionView) {
        ExecutionView::over(JobView { error: Some(error), ..self.job })
    }

    /// What follows when a step comes to an end.
    pub open spec fn step(self, event: EventView) -> (ExecutionView, ActionView) {
        let job = self.job;
        match event {
            EventView::Located(Ok(program)) => (
                ExecutionView { job, stage: Stage::Spawning },
                job.spawn(program),
            ),
            EventView::Located(Err(e)) => self.failed(
                "Failed to locate executable "@ + job.command[0] + ": "@ + e,
            ),
            EventView::Spawned(Ok(_)) => (
                ExecutionView { job, stage: Stage::MakingDir },
                ActionView::MakeDir(job.laststart->0.run_name_text()),
            ),
            EventView::Spawned(Err(e)) => self.failed("Failed to start: "@ + e),
            EventView::DirMade(made) => (
                ExecutionView {
                    job: JobView { history: job.history || made, input: None, ..job },
                    stage: Stage::Running,
                },
                ActionView::Wait(job.input),
            ),
            EventView::Ended(Err(e)) => self.failed("Failed to read job status: "@ + e),
            EventView::Ended(Ok(ending)) => if job.history {
                (
                    ExecutionView {
                        job: job.with_run(ending),
                        stage: Stage::SavingStatus(ending.secs),
                    },
                    ActionView::SaveStatus(status_file_text(ending.status)),
                )
            } else {
                ExecutionView::over(job.with_run(ending))
            },
            EventView::StatusSaved(saved) => if saved {
                (
                    ExecutionView { job, stage: Stage::SavingDuration },
                    ActionView::SaveDuration(decimal(self.stage->SavingStatus_0 as nat)),
                )
            } else {
                ExecutionView::over(job)
            },
            EventView::DurationSaved => ExecutionView::over(job),
        }
    }
}

/// The start of a program with the arguments and in the directory of a job.
fn spawn(job: &Job, program: String) -> (action: Action)
    requires
        job@.command.len() > 0,
    ensures
        action@ == job@.spawn(program@),
{
    let mut args: Vec<String> = Vec::new();
    let mut i: usize = 1;
    while i < job.command.len()
        invariant
            1 <= i <= job.command@.len(),
            texts(args@) == texts(job.command@).subrange(1, i as int),
        decreases job.command.len() - i,
    {
        let ghost before = texts(args@);
        args.push(job.command[i].clone());
        assert(texts(args@) == before.push(job.command@[i as int]@));
        i = i + 1;
    }
    assert(texts(job.command@).subrange(1, i as int) == texts(job.command@).skip(1));
    Action::Spawn(program, args, clone_opt(&job.workdir))
}

impl Execution {
    /// Begins a run.
    pub fn begin(job: Job) -> (r: (Execution, Action))
        requires
            job@.can_run(),
        ensures
            (r.0@, r.1@) == first_step(job@),
    {
        assert(job@.command[0] == job.command@[0]@);
        let program = job.command[0].clone();
        if holds_char(&program, '/') {
            (Execution { job, stage: Stage::Locating }, Action::Locate(program))
        } else {
            let action = spawn(&job, program);
            (Execution { job, stage: Stage::Spawning }, action)
        }
    }

    fn over(job: Job) -> (r: (Execution, Action))
        ensures
            (r.0@, r.1@) == ExecutionView::over(job@),
    {
        let mut job = job;
        job.running = false;
        (Execution { job, stage: Stage::Over }, Action::Report)
    }

    fn failed(job: Job, error: String) -> (r: (Execution, Action))
        ensures
            (r.0@, r.1@) == ExecutionView::over(JobView { error: Some(error@), ..job@ }),
    {
        let mut job = job;
        job.error = Some(error);
        Execution::over(job)
    }

    /// Goes on with a run, given what became of the step under way.
    pub fn step(self, event: Event) -> (r: (Execution, Action))
        requires
            self@.takes(event@),
        ensures
            (r.0@, r.1@) == self@.step(event@),
            r.0@.job.can_run(),
            r.0@.job.laststart == self@.job.laststart,
    {
        let Execution { mut job, stage } = self;
        assert(job@.command[0] == job.command@[0]@);
        match event {
            Event::Located(Ok(program)) => {
                let action = spawn(&job, program);
                (Execution { job, stage: Stage::Spawning }, action)
            },
            Event::Located(Err(e)) => {
                let mut error = chained("Failed to locate executable ", &job.command[0]);
                error.append(": ");
                error.append(&e);
                Execution::failed(job, error)
            },
            Event::Spawned(Ok(_)) => {
                let name = job.laststart.unwrap().run_name();
                (Execution { job, stage: Stage::MakingDir }, Action::MakeDir(name))
            },
            Event::Spawned(Err(e)) => Execution::failed(job, chained("Failed to start: ", &e)),
            Event::DirMade(made) => {
                if made {
                    job.history = true;
                }
                let input = clone_opt(&job.input);
                job.input = None;
                (Execution { job, stage: Stage::Running }, Action::Wait(input))
            },
            Event::Ended(Err(e)) => {
                Execution::failed(job, chained("Failed to read job status: ", &e))
            },
            Event::Ended(Ok(ending)) => {
                let Ending { status, secs, stdout, stderr } = ending;
                job.lastrun = Some(
                    Run {
                        start: job.laststart.unwrap(),
                        duration: Some(secs),
                        status: Some(status),
                        stdout,
                        stderr,
                    },
                );
                if job.history {
                    (
                        Execution { job, stage: Stage::SavingStatus(secs) },
                        Action::SaveStatus(status_file(status)),
                    )
                } else {
                    Execution::over(job)
                }
            },
            Event::StatusSaved(saved) => match stage {
                Stage::SavingStatus(secs) if saved => (
                    Execution { job, stage: Stage::SavingDuration },
                    Action::SaveDuration(duration_file(secs)),
                ),
                _ => Execution::over(job),
            },
            Event::DurationSaved => Execution::over(job),
        }
    }
}

} // verus!
