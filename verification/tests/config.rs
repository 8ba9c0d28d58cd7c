use rnr::config::{Config, Settings};
use rnr::job::Job;
use rnr::clock::Timestamp;
use rnr::schedule::Schedule;

fn config() -> Config {
    Config::new("/srv/rnr".to_string(), 3)
}

fn add(config: &mut Config, path: &str, yaml: &str) {
    assert!(config.read_job(path.to_string(), &yaml.as_bytes().to_vec(), false));
}

fn settings(yaml: &str) -> Settings {
    Settings::try_from_bytes(&yaml.as_bytes().to_vec()).unwrap().unwrap()
}

#[test]
fn a_new_runner_is_empty() {
    let config = config();
    assert_eq!(config.dir, "/srv/rnr");
    assert_eq!(config.jobs.len(), 0);
    assert_eq!(config.env.len(), 0);
    assert_eq!(config.http, None);
    assert_eq!(config.prune, 3);
}

#[test]
fn settings_are_read() {
    let s = settings("env:\n  A: x\n  B: 'y z'\nhttp: 127.0.0.1:80\n");
    assert_eq!(s.env.len(), 2);
    assert_eq!(s.env[0], ("A".to_string(), "x".to_string()));
    assert_eq!(s.env[1], ("B".to_string(), "y z".to_string()));
    assert_eq!(s.http.as_deref(), Some("127.0.0.1:80"));
    let s = settings("env: text\nhttp: [a]\n");
    assert_eq!(s.env.len(), 0);
    assert_eq!(s.http, None);
}

#[test]
fn broken_settings() {
    assert!(Settings::try_from_bytes(&b"".to_vec()).is_none());
    assert!(Settings::try_from_bytes(&b"env:\n  A: 1\n".to_vec()).is_none());
    assert!(Settings::try_from_bytes(&b"env:\n  1: a\n".to_vec()).is_none());
    assert!(Settings::try_from_bytes(&b"env: [\n".to_vec()).unwrap().is_err());
}

#[test]
fn settings_are_taken_over() {
    let mut config = config();
    config.process_config(settings("env:\n  A: x\n  B: y\n"), Some("ignored".to_string()));
    assert_eq!(config.env.get("A").unwrap(), "x");
    assert_eq!(config.http, None);
    config.process_config(settings("env:\n  A: z\nhttp: here\n"), Some("there".to_string()));
    assert_eq!(config.env.get("A").unwrap(), "z");
    assert_eq!(config.env.get("B").unwrap(), "y");
    assert_eq!(config.http.as_deref(), Some("there"));
    config.process_config(settings("http: here\n"), None);
    assert_eq!(config.http, None);
}

#[test]
fn jobs_are_read() {
    let mut config = config();
    add(&mut config, "a", "command: ls\n");
    assert!(config.read_job("b".to_string(), &b"command: 'x".to_vec(), true));
    assert!(!config.read_job("c".to_string(), &b"".to_vec(), true));
    assert_eq!(config.jobs.len(), 2);
    assert_eq!(config.jobs.get("a").unwrap().command, ["ls"]);
    assert!(!config.jobs.get("a").unwrap().history);
    assert!(config.jobs.get("b").unwrap().history);
    assert!(config.jobs.get("b").unwrap().error.is_some());
}

#[test]
fn missing_predecessors_are_found() {
    let mut config = config();
    add(&mut config, "a", "schedule: after x b y\ncommand: ls\n");
    add(&mut config, "b", "schedule: after a\ncommand: ls\n");
    add(&mut config, "c", "schedule: after z\ncommand: ls\n");
    let found = config.check_jobs();
    let pair = |a: &str, b: &str| (a.to_string(), b.to_string());
    assert_eq!(found, vec![pair("a", "x"), pair("a", "y"), pair("c", "z")]);
    assert_eq!(
        config.jobs.get("a").unwrap().error.as_deref(),
        Some("Scheduled after nonexistent job y")
    );
    assert_eq!(config.jobs.get("b").unwrap().error, None);
    assert_eq!(
        config.jobs.get("c").unwrap().error.as_deref(),
        Some("Scheduled after nonexistent job z")
    );
    assert!(matches!(config.jobs.get("a").unwrap().schedule, Schedule::After(_)));
    assert_eq!(config.check_jobs(), found);
    assert_eq!(
        config.jobs.get("a").unwrap().error.as_deref(),
        Some("Scheduled after nonexistent job y")
    );
}

#[test]
fn updates_of_one_job_do_not_overlap() {
    let mut config = config();
    add(&mut config, "a", "command: ls\n");
    assert!(config.begin_update("a"));
    assert!(!config.begin_update("a"));
    let new_job = Job::try_from_yaml("a".to_string(), "command: rm\n".to_string()).unwrap();
    let (job, known) = config.end_update("a", new_job);
    assert!(known);
    assert_eq!(job.command, ["rm"]);
    assert!(!config.jobs.get("a").unwrap().update);
    assert!(config.begin_update("a"));
}

#[test]
fn an_update_keeps_what_is_known_of_runs() {
    let mut config = config();
    add(&mut config, "a", "command: \"'\"\n");
    add(&mut config, "b", "command: ls\n");
    let mut job = config.jobs.get("a").unwrap().clone();
    assert!(job.error.is_some());
    job.running = true;
    job.history = true;
    job.skipped = 5;
    job.laststart = Timestamp::new(7, 0, 0);
    config.jobs.insert("a".to_string(), job);
    assert!(config.begin_update("a"));
    let new_job = Job::try_from_yaml("a".to_string(), "command: rm\n".to_string()).unwrap();
    let (job, known) = config.end_update("a", new_job);
    assert!(known && job.running && job.history);
    assert_eq!(job.laststart.unwrap().secs(), 7);
    assert_eq!(job.skipped, 0);
    assert_eq!(job.error, None);
    assert_eq!(config.jobs.get("a").unwrap().command, ["rm"]);
    assert_eq!(config.jobs.get("b").unwrap().command, ["ls"]);
    assert_eq!(config.jobs.len(), 2);
}

#[test]
fn a_new_job_is_added_by_an_update() {
    let mut config = config();
    assert!(config.begin_update("n"));
    assert!(config.jobs.get("n").unwrap().update);
    assert_eq!(config.jobs.get("n").unwrap().name, "");
    assert!(!config.begin_update("n"));
    let new_job = Job::try_from_yaml("n".to_string(), "command: rm\n".to_string()).unwrap();
    let (job, known) = config.end_update("n", new_job);
    assert!(!known && !job.update && !job.running);
    assert_eq!(config.jobs.len(), 1);
}

#[test]
fn jobs_are_removed() {
    let mut config = config();
    add(&mut config, "a", "command: ls\n");
    add(&mut config, "b", "command: ls\n");
    add(&mut config, "c", "command: ls\n");
    assert!(config.remove_job("b"));
    assert!(!config.remove_job("b"));
    assert_eq!(config.jobs.len(), 2);
    assert_eq!(config.jobs.key_at(0), "a");
    assert_eq!(config.jobs.key_at(1), "c");
}
