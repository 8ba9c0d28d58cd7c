use rnr::clock::Timestamp;
use rnr::config::Config;
use rnr::control::Outcome;
use rnr::path::{path_is, split_path};
use std::path::Path;

#[test]
fn parts_of_paths() {
    assert_eq!(split_path("/a//b/./c/"), ["a", "b", "c"]);
    assert_eq!(split_path("./a/.."), ["a", ".."]);
    assert_eq!(split_path("..."), ["..."]);
    assert_eq!(split_path(".a"), [".a"]);
    assert!(split_path("").is_empty());
    assert!(split_path("./.").is_empty());
}

#[test]
fn paths_are_compared_part_by_part() {
    assert!(path_is("a/", "a"));
    assert!(path_is("a//b", "a/b"));
    assert!(path_is("a/./b/.", "a/b"));
    assert!(!path_is("./a", "a"));
    assert!(!path_is("/a", "a"));
    assert!(!path_is("a", "b"));
    assert!(!path_is("a/b", "ab"));
    assert!(!path_is("", "."));
}

#[test]
fn paths_are_compared_as_everywhere() {
    let paths = [
        "", ".", "./", "./.", "/", "//", "/.", "a", "a/", "a/.", "a//", "./a", "././a", ".//a",
        "/a", "//a", "/./a", "a/b", "a//b", "a/./b", "a/../b", "..", "../", "./..", "...", ".a",
        "./.a", "b", "a/b/", "\u{e4}", "\u{e4}/",
    ];
    for a in paths {
        for b in paths {
            assert_eq!(path_is(a, b), Path::new(a) == Path::new(b), "{:?} {:?}", a, b);
        }
    }
}

#[test]
fn a_report_finds_its_job_by_another_spelling_of_its_path() {
    let mut config = Config::new("/srv/rnr".to_string(), 7);
    for path in ["a", "b/c"] {
        let yaml = b"command: ls\nschedule: after a/\n".to_vec();
        assert!(config.read_job(path.to_string(), &yaml, false));
    }
    let now = Timestamp::new(5, 0, 0).unwrap();
    for (path, spelling) in [("a", "a/"), ("b/c", "b//c"), ("b/c", "b/./c")] {
        let mut report = config.do_start(path, now).unwrap();
        report.path = spelling.to_string();
        report.error = Some(spelling.to_string());
        match config.apply_update(report) {
            Outcome::Finished(f) => {
                assert_eq!(f.job.path, path);
                assert_eq!(f.followers.len(), if spelling == "a/" { 2 } else { 0 });
            },
            _ => panic!("the job is not found"),
        }
        assert_eq!(config.jobs.get(path).unwrap().error.as_deref(), Some(spelling));
    }
    let mut report = config.do_start("a", now).unwrap();
    report.path = "./a".to_string();
    assert!(matches!(config.apply_update(report), Outcome::NotFound));
}
