use rnr::clock::Timestamp;
use rnr::config::Config;
use rnr::run::{ExitStatus, Run};
use rnr::watch::{watch_action, ChangeKind, Place, WatchAction};
use rnr::web::{
    config_reply, get_output, get_runs, output_action, output_piece, output_status, run_record,
    FeedEvent, FeedStage, FileChange, FileRead, OutputAction, Refusal, RunEntry,
};

fn config() -> Config {
    let mut config = Config::new("/srv/rnr".to_string(), 7);
    let yaml = b"command: ls -l\nschedule: after b\n".to_vec();
    assert!(config.read_job("a".to_string(), &yaml, true));
    let yaml = b"command: ls\nschedule: '0 0 0 * * *'\n".to_vec();
    assert!(config.read_job("b".to_string(), &yaml, false));
    config
}

fn at(secs: i64) -> Timestamp {
    Timestamp::new(secs, 0, 0).unwrap()
}

fn entry(name: &str, status: Option<i32>) -> RunEntry {
    RunEntry {
        name: name.to_string(),
        status: status.map(|raw| ExitStatus { raw }),
        status_words: "exit status: 1".to_string(),
        duration: Some("17".to_string()),
        log: "l".to_string(),
        err: "e".to_string(),
    }
}

fn place(file_name: &str, parent: &str, path: &str) -> Option<Place> {
    Some(Place {
        file_name: Some(file_name.to_string()),
        parent: Some(parent.to_string()),
        path: Some(path.to_string()),
    })
}

#[test]
fn jobs_are_listed() {
    let config = config();
    let jobs = config.get_jobs();
    assert_eq!(jobs.len(), 2);
    assert_eq!(jobs[0].path, "a");
    assert_eq!(jobs[0].command, "ls -l");
    assert_eq!(jobs[0].after.as_deref(), Some("b"));
    assert!(jobs[0].history && jobs[0].nextrun.is_none());
    assert_eq!(jobs[1].path, "b");
    assert!(jobs[1].nextrun.is_some());
    let jobs = config.get_jobs_at(&vec![Some(at(1)), Some(at(2))]);
    assert!(jobs[0].nextrun.is_none());
    assert_eq!(jobs[1].nextrun.unwrap().secs(), 2);
}

#[test]
fn the_last_run_of_a_job_is_shown() {
    let mut config = config();
    assert_eq!(config.get_job("a").unwrap_err(), Refusal::NotFound);
    assert_eq!(config.get_job("z").unwrap_err(), Refusal::NotFound);
    let mut job = config.jobs.get("a").unwrap().clone();
    job.lastrun = Some(Run {
        start: at(0),
        duration: Some(3),
        status: Some(ExitStatus { raw: 512 }),
        stdout: b"x".to_vec(),
        stderr: vec![],
    });
    config.jobs.insert("a".to_string(), job);
    let shown = config.get_job("a").unwrap();
    assert_eq!(shown.start, "1970-01-01T00:00:00+00:00");
    assert_eq!((shown.duration, shown.status), (3, 2));
    assert_eq!(shown.log, "x");
    assert_eq!(config.get_jobs()[0].lastrun.as_ref().unwrap().status, 2);
}

#[test]
fn requests_for_runs() {
    let mut config = config();
    assert_eq!(config.runs_request("a", false).unwrap_err(), Refusal::NotFound);
    assert_eq!(config.runs_request("z", true).unwrap_err(), Refusal::NotFound);
    assert_eq!(config.runs_request("a", true).unwrap(), None);
    let mut job = config.jobs.get("a").unwrap().clone();
    job.laststart = Some(at(60));
    config.jobs.insert("a".to_string(), job.clone());
    assert_eq!(config.runs_request("a", true).unwrap(), None);
    job.running = true;
    config.jobs.insert("a".to_string(), job.clone());
    assert_eq!(config.runs_request("a", true).unwrap().as_deref(), Some("1970-01-01 00:01"));
    job.laststart = None;
    config.jobs.insert("a".to_string(), job);
    assert_eq!(config.runs_request("a", true).unwrap(), None);
}

#[test]
fn runs_are_listed_by_name() {
    let entries =
        vec![entry("2", Some(0)), entry("3", Some(256)), entry("1", None), entry("10", Some(9))];
    let records = get_runs(&entries, &Some("2".to_string()));
    let names: Vec<&str> = records.iter().map(|r| r.start.as_str()).collect();
    assert_eq!(names, ["1", "10", "2", "3"]);
    let states: Vec<&str> = records.iter().map(|r| r.status.as_str()).collect();
    assert_eq!(states, ["Unknown", "Failure", "Running", "Failure"]);
    let texts: Vec<&str> = records.iter().map(|r| r.statustext.as_str()).collect();
    assert_eq!(texts, ["exit status not recorded", "exit status: 1", "", "exit status: 1"]);
}

#[test]
fn a_saved_run_is_listed_with_its_outcome() {
    let record = run_record(&entry("1", Some(0)), &None);
    assert_eq!(record.status, "OK");
    assert_eq!(record.statustext, "");
    assert_eq!(record.duration, Some(17));
    assert_eq!(record.log, "l");
    assert_eq!(record.err, "e");
    let mut odd = entry("1", Some(0));
    odd.duration = Some("17\n".to_string());
    assert_eq!(run_record(&odd, &Some("2".to_string())).duration, None);
    odd.duration = None;
    assert_eq!(run_record(&odd, &None).duration, None);
}

#[test]
fn requests_for_job_files() {
    let config = config();
    assert!(config.config_request("a").is_ok());
    assert_eq!(config.config_request("z").unwrap_err(), Refusal::BadRequest);
    assert_eq!(config_reply(FileRead::Missing).unwrap_err(), Refusal::NotFound);
    assert_eq!(config_reply(FileRead::Unreadable).unwrap_err(), Refusal::InternalServerError);
    assert_eq!(config_reply(FileRead::Bytes(b"a\xffb".to_vec())).unwrap(), "a\u{fffd}b");
}

#[test]
fn requests_to_start() {
    let mut config = config();
    assert_eq!(config.do_start("z", at(5)).unwrap_err(), Refusal::NotFound);
    let mut job = config.jobs.get("a").unwrap().clone();
    job.skipped = 3;
    config.jobs.insert("a".to_string(), job);
    let job = config.do_start("a", at(5)).unwrap();
    assert_eq!(job.laststart.unwrap().secs(), 5);
    assert_eq!(job.skipped, 0);
    assert_eq!(job.path, "a");
}

#[test]
fn requests_for_output() {
    assert!(get_output(true, true, true).is_ok());
    assert_eq!(get_output(false, true, true).unwrap_err(), Refusal::NotFound);
    assert_eq!(get_output(true, false, true).unwrap_err(), Refusal::InternalServerError);
    assert_eq!(get_output(true, true, false).unwrap_err(), Refusal::InternalServerError);
}

#[test]
fn changes_of_output_files() {
    assert_eq!(output_action(FileChange::Data, "out"), OutputAction::SendOut);
    assert_eq!(output_action(FileChange::Data, "err"), OutputAction::SendErr);
    assert_eq!(output_action(FileChange::Data, "status"), OutputAction::Ignore);
    assert_eq!(output_action(FileChange::Closed, "status"), OutputAction::SendStatus);
    assert_eq!(output_action(FileChange::Closed, "out"), OutputAction::Ignore);
    assert_eq!(output_action(FileChange::Other, "out"), OutputAction::Ignore);
}

#[test]
fn pieces_of_output() {
    let piece = output_piece(false, &b"a\xff".to_vec());
    assert_eq!((piece.field.as_str(), piece.value.as_str()), ("stdout", "a\u{fffd}"));
    assert_eq!(output_piece(true, &b"".to_vec()).field, "stderr");
    let words = "exit status: 1";
    assert_eq!(output_status(None, words).value, "Failed to read exit status");
    assert_eq!(output_status(Some(ExitStatus { raw: 0 }), words).value, "finished successfully");
    let last = output_status(Some(ExitStatus { raw: 256 }), words);
    assert_eq!((last.field.as_str(), last.value.as_str()), ("status", "failed with exit status: 1"));
}

#[test]
fn a_feed_from_its_start_to_its_end() {
    let stage = FeedStage::ReadingOut(true);
    let (stage, piece) = stage.step(FeedEvent::Read(b"o".to_vec()));
    assert_eq!(piece.unwrap().field, "stdout");
    assert_eq!(stage, FeedStage::ReadingOut(true));
    let (stage, piece) = stage.step(FeedEvent::Drained);
    assert!(piece.is_none());
    assert_eq!(stage, FeedStage::ReadingErr);
    let (stage, piece) = stage.step(FeedEvent::Read(b"e".to_vec()));
    let piece = piece.unwrap();
    assert_eq!((piece.field.as_str(), piece.value.as_str()), ("stderr", "e"));
    let (stage, _) = stage.step(FeedEvent::Drained);
    assert_eq!(stage, FeedStage::Waiting);
    let (stage, _) = stage.step(FeedEvent::Changed(FileChange::Other, "out".to_string()));
    assert_eq!(stage, FeedStage::Waiting);
    let (stage, _) = stage.step(FeedEvent::Changed(FileChange::Data, "out".to_string()));
    assert_eq!(stage, FeedStage::ReadingOut(false));
    let (stage, _) = stage.step(FeedEvent::Drained);
    assert_eq!(stage, FeedStage::Waiting);
    let (stage, _) = stage.step(FeedEvent::Changed(FileChange::Data, "err".to_string()));
    assert_eq!(stage, FeedStage::ReadingErr);
    let (stage, _) = stage.step(FeedEvent::Drained);
    let (stage, _) = stage.step(FeedEvent::Changed(FileChange::Closed, "status".to_string()));
    assert_eq!(stage, FeedStage::ReadingStatus);
    let status = Some(ExitStatus { raw: 0 });
    let (stage, piece) = stage.step(FeedEvent::Status(status, String::new()));
    assert_eq!(stage, FeedStage::Over);
    assert_eq!(piece.unwrap().value, "finished successfully");
}

#[test]
fn a_feed_that_is_cut_off() {
    let (stage, piece) = FeedStage::Waiting.step(FeedEvent::Unwatched);
    assert_eq!(stage, FeedStage::Over);
    assert!(piece.is_none());
}

#[test]
fn job_files_are_watched() {
    let action = watch_action(ChangeKind::Written, place("job.yml", "a", "a/job.yml"));
    assert!(matches!(action, WatchAction::Update(dir) if dir == "a"));
    let action = watch_action(ChangeKind::FileRemoved, place("job.yml", "a/b", "a/b/job.yml"));
    assert!(matches!(action, WatchAction::Remove(dir) if dir == "a/b"));
    for kind in [ChangeKind::Written, ChangeKind::FileRemoved] {
        let action = watch_action(kind, place("job.yaml", "a", "a/job.yaml"));
        assert!(matches!(action, WatchAction::Ignore));
        assert!(matches!(watch_action(kind, None), WatchAction::Ignore));
    }
    let action = watch_action(ChangeKind::Other, place("job.yml", "a", "a/job.yml"));
    assert!(matches!(action, WatchAction::Ignore));
}

#[test]
fn new_directories_are_watched() {
    let action = watch_action(ChangeKind::DirCreated, place("a", "", "a"));
    assert!(matches!(action, WatchAction::Added(dir) if dir == "a"));
    let action = watch_action(ChangeKind::DirCreated, place("b", "a", "a/b"));
    assert!(matches!(action, WatchAction::Ignore));
    let outside = Place { file_name: None, parent: None, path: None };
    let action = watch_action(ChangeKind::DirCreated, Some(outside));
    assert!(matches!(action, WatchAction::Ignore));
}
