use rnr::clock::Timestamp;
use rnr::config::Config;
use rnr::control::Outcome;
use rnr::execution::{Action, Ending, Event, Execution, Stage};
use rnr::job::Job;
use rnr::run::{read_status, ExitStatus};
use rnr::runner::Admission;
use rnr::web::{run_record, RunEntry};

fn job(command: &str) -> Job {
    let yaml = format!("command: {}\nworkdir: /tmp\n", command);
    let mut job = Job::try_from_yaml("a".to_string(), yaml).unwrap();
    job.laststart = Timestamp::new(1_700_000_000, 0, 0);
    job.running = true;
    job
}

fn ending(raw: i32) -> Ending {
    Ending { status: ExitStatus { raw }, secs: 75, stdout: b"o".to_vec(), stderr: b"e".to_vec() }
}

fn running(job: Job, made: bool) -> Execution {
    let (run, action) = Execution::begin(job);
    assert!(matches!(action, Action::Spawn(..)));
    let (run, action) = run.step(Event::Spawned(Ok(())));
    assert!(matches!(&action, Action::MakeDir(name) if name == "2023-11-14 22:13"));
    let (run, action) = run.step(Event::DirMade(made));
    assert!(matches!(action, Action::Wait(_)));
    assert!(matches!(run.stage, Stage::Running));
    run
}

#[test]
fn an_executable_by_name_is_left_to_the_system() {
    let (run, action) = Execution::begin(job("ls -l 'x y'"));
    assert!(matches!(run.stage, Stage::Spawning));
    match action {
        Action::Spawn(program, args, dir) => {
            assert_eq!(program, "ls");
            assert_eq!(args, ["-l", "x y"]);
            assert_eq!(dir.as_deref(), Some("/tmp"));
        },
        _ => panic!("nothing is started"),
    }
}

#[test]
fn an_executable_by_path_is_located() {
    let (run, action) = Execution::begin(job("bin/tool -v"));
    assert!(matches!(&action, Action::Locate(path) if path == "bin/tool"));
    let (run, action) = run.step(Event::Located(Ok("/home/bin/tool".to_string())));
    assert!(matches!(run.stage, Stage::Spawning));
    match action {
        Action::Spawn(program, args, _) => {
            assert_eq!(program, "/home/bin/tool");
            assert_eq!(args, ["-v"]);
        },
        _ => panic!("nothing is started"),
    }
}

#[test]
fn an_executable_that_is_not_there() {
    let (run, _) = Execution::begin(job("bin/tool -v"));
    let (run, action) = run.step(Event::Located(Err("no such file".to_string())));
    assert!(matches!(action, Action::Report));
    assert!(matches!(run.stage, Stage::Over));
    assert!(!run.job.running);
    assert_eq!(
        run.job.error.as_deref(),
        Some("Failed to locate executable bin/tool: no such file")
    );
}

#[test]
fn a_process_that_does_not_start() {
    let (run, _) = Execution::begin(job("ls"));
    let (run, action) = run.step(Event::Spawned(Err("denied".to_string())));
    assert!(matches!(action, Action::Report));
    assert_eq!(run.job.error.as_deref(), Some("Failed to start: denied"));
    assert!(run.job.lastrun.is_none());
}

#[test]
fn a_process_that_is_lost() {
    let run = running(job("ls"), true);
    let (run, action) = run.step(Event::Ended(Err("gone".to_string())));
    assert!(matches!(action, Action::Report));
    assert_eq!(run.job.error.as_deref(), Some("Failed to read job status: gone"));
    assert!(!run.job.running && run.job.history);
}

#[test]
fn a_run_without_a_directory_is_not_saved() {
    let (run, action) = running(job("ls"), false).step(Event::Ended(Ok(ending(256))));
    assert!(matches!(action, Action::Report));
    let last = run.job.lastrun.unwrap();
    assert_eq!(last.duration, Some(75));
    assert_eq!(last.status, Some(ExitStatus { raw: 256 }));
    assert_eq!(last.stdout, b"o");
    assert_eq!(last.stderr, b"e");
    assert_eq!(last.start.secs(), 1_700_000_000);
    assert!(run.job.error.is_none() && !run.job.running && !run.job.history);
}

#[test]
fn a_run_with_a_directory_is_saved() {
    let (run, action) = running(job("ls"), true).step(Event::Ended(Ok(ending(256))));
    match &action {
        Action::SaveStatus(text) => {
            assert_eq!(text, "256\n");
            assert_eq!(read_status(text), run.job.lastrun.as_ref().unwrap().status);
        },
        _ => panic!("no status is saved"),
    }
    let (run, action) = run.step(Event::StatusSaved(true));
    assert!(matches!(&action, Action::SaveDuration(text) if text == "75"));
    let (run, action) = run.step(Event::DurationSaved);
    assert!(matches!(action, Action::Report));
    assert!(matches!(run.stage, Stage::Over));
    assert!(!run.job.running && run.job.history && run.job.lastrun.is_some());
}

#[test]
fn a_job_with_a_history_is_saved_though_the_directory_is_there() {
    let mut job = job("ls");
    job.history = true;
    let (_, action) = running(job, false).step(Event::Ended(Ok(ending(0))));
    assert!(matches!(action, Action::SaveStatus(_)));
}

#[test]
fn a_status_that_cannot_be_saved_ends_the_run() {
    let (run, _) = running(job("ls"), true).step(Event::Ended(Ok(ending(0))));
    let (run, action) = run.step(Event::StatusSaved(false));
    assert!(matches!(action, Action::Report));
    assert!(run.job.lastrun.is_some() && run.job.error.is_none());
}

#[test]
fn the_input_is_handed_over_once() {
    let mut job = job("cat");
    job.input = Some("hello".to_string());
    let (run, _) = Execution::begin(job);
    let (run, _) = run.step(Event::Spawned(Ok(())));
    let (run, action) = run.step(Event::DirMade(true));
    assert!(matches!(&action, Action::Wait(Some(input)) if input == "hello"));
    assert!(run.job.input.is_none());
}

#[test]
fn a_started_run_is_listed_as_running() {
    let mut config = Config::new("/srv/rnr".to_string(), 7);
    assert!(config.read_job("a".to_string(), &b"command: ls\n".to_vec(), true));
    let start = Timestamp::new(1_700_000_000, 0, 3600).unwrap();
    let job = config.do_start("a", start).unwrap();
    let job = match config.request_start(job) {
        Admission::Start(job) => job,
        Admission::Skip(_) => panic!("skipped"),
    };
    let (run, _) = Execution::begin(job);
    let name = match run.step(Event::Spawned(Ok(()))).1 {
        Action::MakeDir(name) => name,
        _ => panic!("no directory is made"),
    };
    assert_eq!(name, "2023-11-14 23:13");
    let running = config.runs_request("a", true).unwrap();
    let entry = RunEntry {
        name,
        status: None,
        status_words: String::new(),
        duration: None,
        log: String::new(),
        err: String::new(),
    };
    assert_eq!(run_record(&entry, &running).status, "Running");
    assert_eq!(run_record(&entry, &None).status, "Unknown");
}

#[test]
fn every_job_stays_under_its_own_path() {
    let mut config = Config::new("/srv/rnr".to_string(), 7);
    for path in ["a", "b", "c"] {
        let yaml = b"command: ls\nschedule: after x\n".to_vec();
        assert!(config.read_job(path.to_string(), &yaml, false));
    }
    config.check_jobs();
    assert!(config.begin_update("b"));
    let new_job = Job::try_from_yaml("b".to_string(), "command: rm\n".to_string()).unwrap();
    config.end_update("b", new_job);
    let start = Timestamp::new(5, 0, 0).unwrap();
    let job = config.do_start("c", start).unwrap();
    assert!(matches!(config.request_start(job), Admission::Start(_)));
    let mut report = config.do_start("c", start).unwrap();
    report.running = false;
    assert!(matches!(config.apply_update(report), Outcome::Finished(_)));
    assert!(config.skip_follower("a").is_some());
    assert_eq!(config.jobs.len(), 3);
    for i in 0..config.jobs.len() {
        assert_eq!(config.jobs.key_at(i), &config.jobs.value_at(i).path);
    }
}

#[test]
fn a_run_without_a_start_can_still_report_its_error() {
    let mut lost = job("bin/tool");
    lost.laststart = None;
    let (run, _) = Execution::begin(lost.clone());
    let (run, action) = run.step(Event::Located(Err("no such file".to_string())));
    assert!(matches!(action, Action::Report));
    assert_eq!(
        run.job.error.as_deref(),
        Some("Failed to locate executable bin/tool: no such file")
    );
    let (run, _) = Execution::begin(lost);
    let (run, _) = run.step(Event::Located(Ok("/bin/tool".to_string())));
    let (run, action) = run.step(Event::Spawned(Err("denied".to_string())));
    assert!(matches!(action, Action::Report));
    assert_eq!(run.job.error.as_deref(), Some("Failed to start: denied"));
    assert!(run.job.laststart.is_none());
}
