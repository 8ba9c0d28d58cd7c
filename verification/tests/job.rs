use rnr::clock::Timestamp;
use rnr::job::Job;
use rnr::run::{duration_file, read_status, status_file, ExitStatus, Run};
use rnr::schedule::Schedule;
use rnr::yaml::{Document, Node};

fn read(path: &str, yaml: &str) -> Job {
    Job::try_from_yaml(path.to_string(), yaml.to_string()).unwrap()
}

fn at(secs: i64, nanos: u32, offset: i32) -> Timestamp {
    Timestamp::new(secs, nanos, offset).unwrap()
}

fn text_entry(key: &str, text: &str) -> (Option<String>, Node) {
    (Some(key.to_string()), Node { text: Some(text.to_string()), table: None })
}

#[test]
fn a_plain_jobfile() {
    let job = read("./backup", "name: ./Backup\ncommand: tar 'my files' x\\ y\nworkdir: /srv\n");
    assert_eq!(job.name, "Backup");
    assert_eq!(job.path, "./backup");
    assert_eq!(job.command, ["tar", "my files", "x y"]);
    assert_eq!(job.workdir.as_deref(), Some("/srv"));
    assert!(matches!(job.schedule, Schedule::Never));
    assert_eq!(job.error, None);
    assert!(!job.running && !job.update && !job.history);
    assert_eq!(job.skipped, 0);
}

#[test]
fn a_job_without_a_name_is_named_after_its_path() {
    let job = read("././backup", "command: 'true'\n");
    assert_eq!(job.name, "backup");
    assert_eq!(job.path, "././backup");
    assert_eq!(job.command, ["true"]);
    let job = read("b", "name: 17\ncommand: ls\n");
    assert_eq!(job.name, "b");
}

#[test]
fn only_the_first_document_counts() {
    let job = read("a", "command: ls\n---\ncommand: rm\n");
    assert_eq!(job.command, ["ls"]);
}

#[test]
fn schedules_are_read() {
    let job = read("a", "schedule: continuous for ever\ncommand: ls\n");
    assert!(matches!(job.schedule, Schedule::Continuous));
    let job = read("a", "schedule: ' after  b   c '\ncommand: ls\n");
    assert!(matches!(&job.schedule, Schedule::After(paths) if *paths == ["b", "c"]));
    let job = read("a", "schedule: 0 30 9 * * *\ncommand: ls\n");
    assert!(matches!(&job.schedule, Schedule::Schedule(expr) if expr == "0 30 9 * * *"));
    assert_eq!(job.error, None);
}

#[test]
fn a_broken_schedule_is_an_error() {
    let job = read("a", "schedule: after\ncommand: ls\n");
    assert_eq!(job.error.as_deref(), Some("Invalid schedule expression: after"));
    assert_eq!(job.command.len(), 0);
    let job = read("./a", "name: n\nschedule: every day\ncommand: ls\n");
    let error = job.error.unwrap();
    assert!(error.starts_with("Failed to parse schedule: "), "{}", error);
    assert!(error.len() > "Failed to parse schedule: ".len());
    assert_eq!(job.name, "n");
    assert_eq!(job.path, "./a");
    assert!(matches!(job.schedule, Schedule::Never));
}

#[test]
fn a_broken_command_is_an_error() {
    let job = read("a", "name: n\n");
    assert_eq!(job.error.as_deref(), Some("No command found in jobfile"));
    let job = read("a", "command: [ls]\n");
    assert_eq!(job.error.as_deref(), Some("No command found in jobfile"));
    let job = read("a", "command: \"echo 'x\"\n");
    assert_eq!(
        job.error.as_deref(),
        Some("Invalid command found in jobfile: missing closing quote")
    );
}

#[test]
fn a_broken_schedule_comes_before_a_broken_command() {
    let job = read("a", "schedule: after\n");
    assert_eq!(job.error.as_deref(), Some("Invalid schedule expression: after"));
}

#[test]
fn broken_yaml_is_an_error() {
    let job = read("././a", "name: [\n");
    let error = job.error.unwrap();
    assert!(error.starts_with("Invalid YAML in jobfile: "), "{}", error);
    assert!(error.len() > "Invalid YAML in jobfile: ".len());
    assert_eq!(job.name, "a");
}

#[test]
fn a_jobfile_that_cannot_be_read() {
    assert!(Job::try_from_yaml("a".to_string(), "".to_string()).is_none());
    assert!(Job::try_from_yaml("a".to_string(), "schedule: ' '\ncommand: ls".to_string()).is_none());
    assert!(Job::try_from_bytes("a".to_string(), &b"# nothing\n".to_vec()).is_none());
}

#[test]
fn a_jobfile_of_broken_text_is_read_as_far_as_it_goes() {
    let job = Job::try_from_bytes("a".to_string(), &b"command: ls \xff\n".to_vec()).unwrap();
    assert_eq!(job.command, ["ls", "\u{fffd}"]);
}

#[test]
fn a_document_that_is_no_mapping_has_no_command() {
    let job = Job::from_document("./x".to_string(), &Document { entries: None });
    assert_eq!(job.name, "x");
    assert_eq!(job.error.as_deref(), Some("No command found in jobfile"));
}

#[test]
fn parts_of_a_job() {
    let doc = Document {
        entries: Some(vec![
            (None, Node { text: Some("?".to_string()), table: None }),
            text_entry("schedule", "0 0 0 * * *"),
            text_entry("command", "ls -l"),
            text_entry("schedule", "continuous"),
        ]),
    };
    let words = vec!["ls".to_string(), "-l".to_string()];
    let job = Job::from_parts("a".to_string(), &doc, None, Ok(words.clone()));
    assert_eq!(job.command, words);
    assert!(matches!(&job.schedule, Schedule::Schedule(expr) if expr == "0 0 0 * * *"));
    let job = Job::from_parts("a".to_string(), &doc, Some("no".to_string()), Ok(words));
    assert_eq!(job.error.as_deref(), Some("Failed to parse schedule: no"));
    let job = Job::from_parts("a".to_string(), &doc, None, Err("bad".to_string()));
    assert_eq!(job.error.as_deref(), Some("Invalid command found in jobfile: bad"));
}

#[test]
fn a_job_is_emptied() {
    let mut job = read("a", "schedule: after b\ncommand: ls -l\nworkdir: /\n");
    job.running = true;
    job.history = true;
    job.skipped = 4;
    job.update = true;
    job.error = Some("e".to_string());
    job.input = Some("i".to_string());
    job.laststart = Some(at(0, 0, 0));
    job.lastrun = Some(Run {
        start: at(0, 0, 0),
        duration: Some(1),
        status: Some(ExitStatus { raw: 0 }),
        stdout: vec![],
        stderr: vec![],
    });
    let empty = job.clone_empty();
    assert_eq!(empty.name, "a");
    assert_eq!(empty.command, ["ls", "-l"]);
    assert_eq!(empty.workdir.as_deref(), Some("/"));
    assert!(matches!(&empty.schedule, Schedule::After(paths) if *paths == ["b"]));
    assert!(empty.running && empty.history && !empty.update);
    assert_eq!(empty.skipped, 0);
    assert!(empty.error.is_none() && empty.input.is_none());
    assert!(empty.laststart.is_none() && empty.lastrun.is_none());
    assert_eq!(format!("{:?}", empty.clone_empty()), format!("{:?}", empty));
    assert_eq!(format!("{:?}", job.clone()), format!("{:?}", job));
}

#[test]
fn a_job_from_an_error() {
    let job = Job::from_error(None, "./a/b".to_string(), "e".to_string());
    assert_eq!(job.name, "a/b");
    assert_eq!(job.path, "./a/b");
    assert_eq!(job.error.as_deref(), Some("e"));
    let job = Job::from_error(Some("./n".to_string()), "a".to_string(), "e".to_string());
    assert_eq!(job.name, "./n");
}

#[test]
fn a_job_is_shown() {
    let mut job = read("p", "name: n\nschedule: after a b\ncommand: ls 'x y'\n");
    job.skipped = 2;
    job.laststart = Some(at(1, 0, 0));
    let shown = job.to_json();
    assert_eq!(shown.name, "n");
    assert_eq!(shown.path, "p");
    assert_eq!(shown.command, "ls x y");
    assert_eq!(shown.after.as_deref(), Some("a b"));
    assert!(shown.nextrun.is_none() && shown.lastrun.is_none() && shown.error.is_none());
    assert_eq!(shown.laststart.unwrap().secs(), 1);
    assert_eq!(shown.skipped, 2);
    assert!(!shown.running && !shown.history);
    assert!(job.to_json_at(Some(at(9, 0, 0))).nextrun.is_none());
}

#[test]
fn a_job_is_shown_with_its_next_start() {
    let job = read("p", "schedule: '*/10 * * * * *'\ncommand: ls\n");
    let next = job.to_json().nextrun.unwrap();
    assert_eq!(next.secs() % 10, 0);
    assert_eq!(next.nanos(), 0);
    assert!(next.secs() > 1_700_000_000);
    assert_eq!(job.to_json_at(Some(at(9, 0, 0))).nextrun.unwrap().secs(), 9);
    assert!(job.to_json().after.is_none());
}

#[test]
fn a_cron_expression_of_the_past_gives_nothing() {
    assert!(Schedule::Schedule("0 0 0 1 1 * 1980".to_string()).upcoming().is_none());
    assert!(Schedule::Schedule("nonsense".to_string()).upcoming().is_none());
    assert!(Schedule::Never.upcoming().is_none());
    assert!(Schedule::Continuous.upcoming().is_none());
}

#[test]
fn the_next_start_is_what_cron_says() {
    let cron = Schedule::Schedule("0 0 0 * * *".to_string());
    let start = cron.upcoming_at(Some((1_700_000_000, 0, 3600))).unwrap();
    assert_eq!((start.secs(), start.nanos(), start.offset()), (1_700_000_000, 0, 3600));
    assert!(cron.upcoming_at(None).is_none());
    assert!(cron.upcoming_at(Some((0, 0, 86_400))).is_none());
    assert!(Schedule::Continuous.upcoming_at(Some((1_700_000_000, 0, 0))).is_none());
}

#[test]
fn a_cron_expression_includes_its_instants() {
    let cron = Schedule::Schedule("20 13 22 * * Tue".to_string());
    assert!(cron.includes(&at(1_700_000_000, 0, 0)));
    assert!(cron.includes(&at(1_700_000_000, 5, 0)));
    assert!(!cron.includes(&at(1_700_000_000, 0, 3600)));
    assert!(!cron.includes(&at(1_700_000_001, 0, 0)));
    assert!(!cron.includes(&at(1_700_086_400, 0, 0)));
    assert!(!Schedule::Schedule("nonsense".to_string()).includes(&at(0, 0, 0)));
    assert!(!Schedule::Continuous.includes(&at(0, 0, 0)));
}

#[test]
fn the_next_start_is_in_the_schedule() {
    for expr in ["0 30 9 * * *", "*/7 * * * * *", "0 0 0 1 1 *", "@weekly", "5 4 3 * * Mon-Fri"] {
        let cron = Schedule::Schedule(expr.to_string());
        let next = cron.upcoming().unwrap();
        assert!(cron.includes(&next), "{}", expr);
    }
}

#[test]
fn schedules_reach_the_ends_of_the_calendar() {
    let cron = Schedule::Schedule("* * * * * *".to_string());
    for offset in [-86_399, 0, 86_399] {
        assert!(!cron.includes(&at(-8_334_601_228_800, 0, offset)));
        assert!(!cron.includes(&at(8_210_266_876_799, 0, offset)));
    }
}

#[test]
fn what_is_left_to_cron() {
    assert!(Schedule::is_cron("0 0 0 * * *"));
    assert!(Schedule::is_cron("nonsense"));
    assert!(!Schedule::is_cron("continuous x"));
    assert!(!Schedule::is_cron(" after"));
    assert!(!Schedule::is_cron(" "));
}

#[test]
fn shown_predecessors_are_read_again() {
    let job = read("p", "schedule: \"after\\ta  b\"\ncommand: ls\n");
    let again = Schedule::read(&format!("after {}", job.to_json().after.unwrap()), None).unwrap();
    assert!(matches!(again, Schedule::After(paths) if paths == ["a", "b"]));
}

#[test]
fn a_run_is_shown() {
    let run = Run {
        start: at(1_700_000_000, 500_000_000, 3600),
        duration: Some(62),
        status: Some(ExitStatus { raw: 3 << 8 }),
        stdout: b"out\n".to_vec(),
        stderr: b"\xc3(".to_vec(),
    };
    let shown = run.to_json();
    assert_eq!(shown.start, "2023-11-14T23:13:20.500+01:00");
    assert_eq!(shown.duration, 62);
    assert_eq!(shown.status, 3);
    assert_eq!(shown.log, "out\n");
    assert_eq!(shown.err, "\u{fffd}(");
}

#[test]
fn the_end_of_a_run_is_reported() {
    let mut run = Run {
        start: at(0, 0, 0),
        duration: Some(61),
        status: Some(ExitStatus { raw: 0 }),
        stdout: vec![],
        stderr: vec![],
    };
    assert_eq!(run.end_report("a", ""), "[a] finished successfully in 1m 1s");
    run.stderr = b"oops".to_vec();
    assert_eq!(run.end_report("a", ""), "[a] finished with errors in 1m 1s");
    run.status = Some(ExitStatus { raw: 256 });
    assert_eq!(
        run.end_report("a", "exit status: 1"),
        "[a] failed after 1m 1s with exit status: 1"
    );
}

#[test]
fn exit_codes_are_taken_from_the_status_word() {
    assert_eq!(ExitStatus { raw: 0 }.code(), Some(0));
    assert_eq!(ExitStatus { raw: 256 }.code(), Some(1));
    assert_eq!(ExitStatus { raw: 255 << 8 }.code(), Some(255));
    assert_eq!(ExitStatus { raw: 9 }.code(), None);
    assert_eq!(ExitStatus { raw: 139 }.code(), None);
    assert!(ExitStatus { raw: 0 }.success());
    assert!(!ExitStatus { raw: 256 }.success());
    for raw in [-1, -128, -256, i32::MIN, i32::MAX, 128, 65536, 127, 511] {
        let code = if raw & 0x7f == 0 { Some(((raw >> 8) & 0xff) as u8) } else { None };
        assert_eq!(ExitStatus { raw }.code(), code, "{}", raw);
    }
}

#[test]
fn a_status_file_is_read_back() {
    assert_eq!(status_file(ExitStatus { raw: 256 }), "256\n");
    for raw in [0, 9, 256, -1, i32::MAX, i32::MIN] {
        assert_eq!(read_status(&status_file(ExitStatus { raw })), Some(ExitStatus { raw }));
    }
    assert_eq!(read_status("7"), Some(ExitStatus { raw: 7 }));
    assert_eq!(read_status("7\n\n"), None);
    assert_eq!(read_status(""), None);
    assert_eq!(read_status("ok\n"), None);
}

#[test]
fn a_duration_file_has_the_seconds() {
    assert_eq!(duration_file(3601), "3601");
}

#[test]
fn instants() {
    assert!(Timestamp::new(0, 1_000_000_000, 0).is_none());
    assert!(Timestamp::new(0, 0, 86_400).is_none());
    assert!(Timestamp::new(8_210_266_876_800, 0, 0).is_none());
    assert!(Timestamp::new(-8_334_601_228_801, 0, 0).is_none());
    let t = at(1_700_000_000, 5, -1800);
    assert_eq!((t.secs(), t.nanos(), t.offset()), (1_700_000_000, 5, -1800));
    assert_eq!(t.run_name(), "2023-11-14 21:43");
    assert_eq!(t.to_rfc3339(), "2023-11-14T21:43:20.000000005-00:30");
    let u = at(1_700_000_001, 3, 0);
    assert!(t.before(&u) && !u.before(&t) && !t.before(&t));
    assert_eq!(t.until(&u), (0, 999_999_998));
    assert_eq!(t.until(&t), (0, 0));
    assert_eq!(t.later(60).unwrap().secs(), 1_700_000_060);
    assert!(at(8_210_266_876_799, 0, 0).later(1).is_none());
}

#[test]
fn the_first_and_the_last_instant_can_be_written() {
    for offset in [-86_399, 0, 86_399] {
        let first = at(-8_334_601_228_800, 0, offset);
        let last = at(8_210_266_876_799, 999_999_999, offset);
        assert!(first.to_rfc3339().starts_with('-'));
        assert!(last.to_rfc3339().starts_with('+'));
        assert!(first.run_name().starts_with('-'));
        assert!(last.run_name().starts_with('+'));
    }
}
