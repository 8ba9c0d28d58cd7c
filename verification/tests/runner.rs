use rnr::clock::Timestamp;
use rnr::config::{Config, Settings};
use rnr::control::{prune, start_follower, Finish, Outcome};
use rnr::job::Job;
use rnr::run::{ExitStatus, Run};
use rnr::runner::{horizon, Admission};

fn at(secs: i64) -> Timestamp {
    Timestamp::new(secs, 0, 0).unwrap()
}

fn with_jobs(jobs: &[(&str, &str)]) -> Config {
    let mut config = Config::new("/srv/rnr".to_string(), 7);
    for (path, schedule) in jobs {
        let yaml = format!("command: ls\nschedule: {}\n", schedule);
        assert!(config.read_job(path.to_string(), &yaml.into_bytes(), false));
    }
    config
}

fn finish(outcome: Outcome) -> Finish {
    match outcome {
        Outcome::Finished(f) => f,
        _ => panic!("the run is not over"),
    }
}

fn ended(config: &Config, path: &str, raw: i32) -> Job {
    let mut job = config.do_start(path, at(50)).unwrap();
    job.running = false;
    job.lastrun = Some(Run {
        start: at(50),
        duration: Some(2),
        status: Some(ExitStatus { raw }),
        stdout: b"x".to_vec(),
        stderr: vec![],
    });
    job
}

#[test]
fn a_job_starts_once_at_a_time() {
    let mut config = with_jobs(&[("a", "0 0 0 * * *")]);
    let job = config.do_start("a", at(10)).unwrap();
    let again = config.do_start("a", at(20)).unwrap();
    match config.request_start(job) {
        Admission::Start(job) => assert!(job.running),
        Admission::Skip(_) => panic!("skipped"),
    }
    assert!(config.jobs.get("a").unwrap().running);
    assert_eq!(config.jobs.get("a").unwrap().laststart.unwrap().secs(), 10);
    for count in 1..3 {
        match config.request_start(again.clone()) {
            Admission::Start(_) => panic!("started"),
            Admission::Skip(job) => {
                assert_eq!(job.skipped, count);
                assert!(!job.running);
                assert_eq!(job.laststart.unwrap().secs(), 20);
            },
        }
        assert_eq!(config.jobs.get("a").unwrap().skipped, count);
        assert_eq!(config.jobs.get("a").unwrap().laststart.unwrap().secs(), 10);
    }
    let report = ended(&config, "a", 0);
    finish(config.apply_update(report));
    assert!(!config.jobs.get("a").unwrap().running);
    assert_eq!(config.jobs.get("a").unwrap().skipped, 2);
    assert!(matches!(config.request_start(again), Admission::Start(_)));
    assert_eq!(config.jobs.get("a").unwrap().skipped, 0);
}

#[test]
fn a_job_that_was_removed_starts_all_the_same() {
    let mut config = with_jobs(&[("a", "0 0 0 * * *")]);
    let job = config.do_start("a", at(10)).unwrap();
    assert!(config.remove_job("a"));
    assert!(matches!(config.request_start(job), Admission::Start(_)));
    assert_eq!(config.jobs.len(), 0);
}

#[test]
fn the_jobs_that_start_first_are_next() {
    let config = with_jobs(&[
        ("a", "0 0 0 * * *"),
        ("b", "0 0 1 * * *"),
        ("c", "after a"),
        ("d", "0 0 2 * * *"),
        ("e", "0 0 3 * * *"),
    ]);
    let upcoming = vec![Some(at(200)), Some(at(100)), Some(at(1)), Some(at(100)), None];
    let (wake, jobs) = config.next_jobs(&upcoming, at(300));
    assert_eq!(wake.secs(), 100);
    let paths: Vec<&str> = jobs.iter().map(|j| j.path.as_str()).collect();
    assert_eq!(paths, ["b", "d"]);
    assert_eq!(jobs[0].laststart.unwrap().secs(), 100);
    assert!(jobs[0].lastrun.is_none());
}

#[test]
fn nothing_starts_after_the_horizon() {
    let config = with_jobs(&[("a", "0 0 0 * * *"), ("b", "0 0 1 * * *")]);
    let (wake, jobs) = config.next_jobs(&vec![Some(at(301)), None], at(300));
    assert_eq!(wake.secs(), 300);
    assert!(jobs.is_empty());
    let (wake, jobs) = config.next_jobs(&vec![Some(at(300)), None], at(300));
    assert_eq!(wake.secs(), 300);
    assert_eq!(jobs.len(), 1);
    assert_eq!(jobs[0].path, "a");
}

#[test]
fn the_horizon_is_five_minutes_away() {
    let now = Timestamp::new(1000, 5, 3600).unwrap();
    let then = horizon(&now).unwrap();
    assert_eq!((then.secs(), then.nanos(), then.offset()), (1300, 5, 3600));
    assert!(horizon(&Timestamp::new(8_210_266_876_799, 0, 0).unwrap()).is_none());
}

#[test]
fn the_plan_follows_the_clock() {
    let config = with_jobs(&[("a", "'* * * * * *'"), ("b", "after a"), ("c", "0 0 0 1 1 * 1980")]);
    let upcoming = config.upcoming();
    assert_eq!(upcoming.len(), 3);
    assert!(upcoming[0].is_some() && upcoming[1].is_none() && upcoming[2].is_none());
    let far = at(8_000_000_000);
    let (wake, jobs) = config.plan(far);
    assert!(wake.secs() > 1_700_000_000 && wake.before(&far));
    assert_eq!(wake.nanos(), 0);
    assert_eq!(jobs.len(), 1);
    assert_eq!(jobs[0].path, "a");
    assert_eq!(jobs[0].laststart.unwrap().secs(), wake.secs());
    assert!(jobs[0].schedule.includes(&wake));
}

#[test]
fn the_environment_is_handed_on() {
    let mut config = with_jobs(&[]);
    let yaml = b"env:\n  A: x\n  B: y\n".to_vec();
    config.process_config(Settings::try_from_bytes(&yaml).unwrap().unwrap(), None);
    let pair = |a: &str, b: &str| (a.to_string(), b.to_string());
    assert_eq!(config.env_pairs(), vec![pair("A", "x"), pair("B", "y")]);
}

#[test]
fn a_start_is_passed_on() {
    let mut config = with_jobs(&[("a", "0 0 0 * * *")]);
    let mut job = config.do_start("a", at(10)).unwrap();
    job.running = true;
    match config.apply_update(job) {
        Outcome::Started(job) => assert_eq!(job.path, "a"),
        _ => panic!("not started"),
    }
    assert!(!config.jobs.get("a").unwrap().running);
}

#[test]
fn a_report_of_no_job() {
    let mut config = with_jobs(&[("a", "0 0 0 * * *")]);
    let mut job = config.do_start("a", at(10)).unwrap();
    job.path = "z".to_string();
    assert!(matches!(config.apply_update(job), Outcome::NotFound));
}

#[test]
fn a_success_is_recorded() {
    let mut config = with_jobs(&[("a", "0 0 0 * * *"), ("b", "after a"), ("c", "after x a")]);
    let mut report = ended(&config, "a", 0);
    report.history = true;
    let f = finish(config.apply_update(report));
    assert!(!f.failed);
    assert_eq!(f.prune, Some(7));
    let waiting: Vec<&str> = f.followers.iter().map(|j| j.path.as_str()).collect();
    assert_eq!(waiting, ["b", "c"]);
    let job = config.jobs.get("a").unwrap();
    assert_eq!(job.lastrun.as_ref().unwrap().duration, Some(2));
    assert_eq!(job.lastrun.as_ref().unwrap().stdout, b"x");
    assert_eq!(job.laststart.unwrap().secs(), 50);
    assert!(job.history && f.job.history && job.error.is_none());
    let started = start_follower(f.failed, f.followers[0].clone(), at(60)).unwrap();
    assert_eq!(started.path, "b");
    assert_eq!(started.laststart.unwrap().secs(), 60);
}

#[test]
fn a_failure_is_recorded() {
    let mut config = with_jobs(&[("a", "0 0 0 * * *"), ("b", "after a")]);
    let report = ended(&config, "a", 256);
    let f = finish(config.apply_update(report));
    assert!(f.failed);
    assert_eq!(f.prune, None);
    assert!(f.job.error.is_none());
    assert!(start_follower(f.failed, f.followers[0].clone(), at(60)).is_none());
    let told = config.skip_follower("b").unwrap();
    assert_eq!(told.skipped, 1);
    assert_eq!(config.skip_follower("b").unwrap().skipped, 2);
    assert_eq!(config.jobs.get("b").unwrap().skipped, 2);
    assert!(config.skip_follower("z").is_none());
}

#[test]
fn an_error_is_recorded_and_the_last_run_stays() {
    let mut config = with_jobs(&[("a", "0 0 0 * * *")]);
    let first = ended(&config, "a", 0);
    finish(config.apply_update(first));
    let mut report = config.do_start("a", at(90)).unwrap();
    report.error = Some("Failed to start: x".to_string());
    let f = finish(config.apply_update(report));
    assert!(f.failed);
    assert_eq!(f.job.error.as_deref(), Some("Failed to start: x"));
    assert_eq!(f.job.laststart.unwrap().secs(), 50);
    assert!(f.job.lastrun.is_some());
    let again = ended(&config, "a", 0);
    let f = finish(config.apply_update(again));
    assert!(!f.failed);
    assert_eq!(f.job.error.as_deref(), Some("Failed to start: x"));
}

#[test]
fn the_oldest_runs_are_pruned() {
    let names = |v: &[&str]| v.iter().map(|n| n.as_bytes().to_vec()).collect::<Vec<Vec<u8>>>();
    let runs = names(&["2024-03", "2024-01", "2024-04", "2024-02"]);
    let plan = prune(&runs, 2);
    assert_eq!(plan.remove, names(&["2024-01", "2024-02"]));
    assert_eq!(plan.keep, names(&["2024-03", "2024-04"]));
    let again = prune(&plan.keep, 2);
    assert!(again.remove.is_empty());
    assert_eq!(again.keep, plan.keep);
    assert_eq!(prune(&runs, 0).remove.len(), 4);
    assert!(prune(&runs, 4).remove.is_empty());
    assert!(prune(&runs, usize::MAX).remove.is_empty());
    assert!(prune(&vec![], 0).remove.is_empty());
}
