//! The state of the runner: its settings and its jobs, and how they change as
//! job files are found, written and removed.

use crate::job::{job_of_file, jobfile_is_readable, Job, JobView};
use crate::outside::{load_yaml, lossy_text, text_from_bytes, yaml_documents};
use crate::schedule::{Schedule, ScheduleView};
use crate::table::{without, Table};
use crate::text::{chained, clone_opt, opt_text, owned, texts};
use crate::yaml::{documents_view, table_view, Document, DocumentView};
use vstd::prelude::*;
use vstd::string::*;

verus! {

/// The runner's directory, its jobs by path, what it adds to the environment
/// of commands, the address at which it serves the web interface, and how many
/// runs of a job it keeps.
pub struct Config {
    pub dir: String,
    pub jobs: Table<Job>,
    pub env: Table<String>,
    pub http: Option<String>,
    pub prune: usize,
}

/// The model of the runner's state.
pub struct ConfigView {
    pub dir: Seq<char>,
    /// The paths of the jobs, in the order in which they are walked.
    pub order: Seq<Seq<char>>,
    pub jobs: Map<Seq<char>, JobView>,
    pub env: Map<Seq<char>, Seq<char>>,
    pub http: Option<Seq<char>>,
    pub prune: usize,
}

/// The models of the jobs in a table.
pub open spec fn jobs_view(jobs: Map<Seq<char>, Job>) -> Map<Seq<char>, JobView> {
    jobs.map_values(|j: Job| j@)
}

/// The texts in a table.
pub open spec fn env_view(env: Map<Seq<char>, String>) -> Map<Seq<char>, Seq<char>> {
    env.map_values(|s: String| s@)
}

impl View for Config {
    type V = ConfigView;

    open spec fn view(&self) -> ConfigView {
        ConfigView {
            dir: self.dir@,
            order: self.jobs.keys(),
            jobs: jobs_view(self.jobs@),
            env: env_view(self.env@),
            http: opt_text(self.http),
            prune: self.prune,
        }
    }
}

/// What the configuration file sets.
pub struct Settings {
    pub env: Vec<(String, String)>,
    pub http: Option<String>,
}

/// The model of what the configuration file sets.
pub struct SettingsView {
    pub env: Seq<(Seq<char>, Seq<char>)>,
    pub http: Option<Seq<char>>,
}

impl View for Settings {
    type V = SettingsView;

    open spec fn view(&self) -> SettingsView {
        SettingsView {
            env: pair_texts(self.env@),
            http: opt_text(self.http),
        }
    }
}

/// Whether the environment in a document, if there is one, has only texts as
/// names and as values.
pub open spec fn env_is_text(doc: DocumentView) -> bool {
    doc.table_at("env"@) matches Some(table) ==> forall|i: int|
        0 <= i < table.len() ==> (#[trigger] table[i]).0 is Some && table[i].1 is Some
}

/// What a document sets.
pub open spec fn settings_of(doc: DocumentView) -> SettingsView {
    SettingsView {
        env: match doc.table_at("env"@) {
            Some(table) => table.map_values(
                |e: (Option<Seq<char>>, Option<Seq<char>>)| (e.0->0, e.1->0),
            ),
            None => seq![],
        },
        http: doc.text_at("http"@),
    }
}

/// Whether a configuration file, if it is YAML at all, has a first document to
/// read, and its environment has only texts in it.
pub open spec fn settings_are_readable(yaml: Seq<char>) -> bool {
    yaml_documents(yaml) matches Ok(docs) ==> docs.len() > 0 && env_is_text(docs[0])
}

/// An environment after entries were put into it, one after the other.
pub open spec fn with_entries(
    env: Map<Seq<char>, Seq<char>>,
    entries: Seq<(Seq<char>, Seq<char>)>,
) -> Map<Seq<char>, Seq<char>>
    decreases entries.len(),
{
    if entries.len() == 0 {
        env
    } else {
        with_entries(env, entries.drop_last()).insert(entries.last().0, entries.last().1)
    }
}

/// The paths after which a job is scheduled and at which there is no job.
pub open spec fn missing(job: JobView, jobs: Map<Seq<char>, JobView>) -> Seq<Seq<char>> {
    match job.schedule {
        ScheduleView::After(paths) => paths.filter(|p: Seq<char>| !jobs.contains_key(p)),
        _ => seq![],
    }
}

/// A job after the check that the jobs it waits for exist: where some do not,
/// its error names the last of them.
pub open spec fn checked(job: JobView, jobs: Map<Seq<char>, JobView>) -> JobView {
    if missing(job, jobs).len() == 0 {
        job
    } else {
        JobView {
            error: Some("Scheduled after nonexistent job "@ + missing(job, jobs).last()),
            ..job
        }
    }
}

/// The paths of jobs with each path that they wait for in vain.
pub open spec fn complaints(order: Seq<Seq<char>>, jobs: Map<Seq<char>, JobView>) -> Seq<
    (Seq<char>, Seq<char>),
>
    decreases order.len(),
{
    if order.len() == 0 {
        seq![]
    } else {
        let job = jobs[order.last()];
        complaints(order.drop_last(), jobs) + missing(job, jobs).map_values(
            |p: Seq<char>| (job.path, p),
        )
    }
}

/// The texts of pairs of strings.
pub open spec fn pair_texts(v: Seq<(String, String)>) -> Seq<(Seq<char>, Seq<char>)> {
    v.map_values(|e: (String, String)| (e.0@, e.1@))
}

/// A job whose file was read again: unless it is new, that is without a name,
/// what is known of its runs stays.
pub open spec fn reloaded(old_job: JobView, new_job: JobView) -> JobView {
    if old_job.name.len() == 0 {
        new_job
    } else {
        JobView {
            running: old_job.running,
            laststart: old_job.laststart,
            lastrun: old_job.lastrun,
            history: old_job.history,
            ..new_job
        }
    }
}

impl ConfigView {
    /// The state with another job at a path.
    pub open spec fn with_job(self, path: Seq<char>, job: JobView) -> ConfigView {
        ConfigView {
            order: if self.jobs.contains_key(path) {
                self.order
            } else {
                self.order.push(path)
            },
            jobs: self.jobs.insert(path, job),
            ..self
        }
    }

    /// The state without the job at a path.
    pub open spec fn without_job(self, path: Seq<char>) -> ConfigView {
        ConfigView {
            order: without(self.order, path),
            jobs: self.jobs.remove(path),
            ..self
        }
    }

    /// The state after the check that the jobs which others wait for exist.
    pub open spec fn with_jobs_checked(self) -> ConfigView {
        ConfigView {
            jobs: self.jobs.map_values(|j: JobView| checked(j, self.jobs)),
            ..self
        }
    }

    /// The state in which an update of the job at a path has begun.
    pub open spec fn with_update_begun(self, path: Seq<char>) -> ConfigView {
        let job = if self.jobs.contains_key(path) {
            self.jobs[path]
        } else {
            JobView::blank()
        };
        self.with_job(path, JobView { update: true, ..job })
    }

    /// Whether an update of the job at a path has begun and not ended.
    pub open spec fn is_updating(self, path: Seq<char>) -> bool {
        self.jobs.contains_key(path) && self.jobs[path].update
    }

    /// The state in which the update of the job at a path has ended.
    pub open spec fn with_update_ended(self, path: Seq<char>, new_job: JobView) -> ConfigView {
        self.with_job(path, reloaded(self.jobs[path], new_job))
    }
}

/// Putting a job into a table puts its model into the model.
pub proof fn lemma_insert_view(jobs: Map<Seq<char>, Job>, path: Seq<char>, job: Job)
    ensures
        jobs_view(jobs.insert(path, job)) == jobs_view(jobs).insert(path, job@),
{
    assert(jobs_view(jobs.insert(path, job)) =~= jobs_view(jobs).insert(path, job@));
}

impl Settings {
    /// Reads what a document sets.
    pub fn from_document(doc: &Document) -> (r: Settings)
        requires
            env_is_text(doc@),
        ensures
            r@ == settings_of(doc@),
    {
        let mut env: Vec<(String, String)> = Vec::new();
        if let Some(table) = doc.table_at("env") {
            let ghost model = table_view(table@);
            let mut i: usize = 0;
            while i < table.len()
                invariant
                    i <= table@.len(),
                    model == table_view(table@),
                    forall|k: int|
                        0 <= k < model.len() ==> (#[trigger] model[k]).0 is Some
                            && model[k].1 is Some,
                    env@.len() == i,
                    forall|k: int|
                        0 <= k < i ==> (#[trigger] env@[k]).0@ == model[k].0->0 && env@[k].1@
                            == model[k].1->0,
                decreases table.len() - i,
            {
                let entry = &table[i];
                assert(model[i as int].0 is Some && model[i as int].1 is Some);
                let key = clone_opt(&entry.0).unwrap();
                let value = clone_opt(&entry.1).unwrap();
                env.push((key, value));
                i = i + 1;
            }
        }
        let http = match doc.text_at("http") {
            Some(addr) => Some(addr.clone()),
            None => None,
        };
        let r = Settings { env, http };
        assert(r@.env =~= settings_of(doc@).env);
        r
    }

    /// Reads a configuration file that has a first document, in which the
    /// environment has only texts in it.
    pub fn from_yaml(yaml: &str) -> (r: Result<Settings, String>)
        requires
            settings_are_readable(yaml@),
        ensures
            match r {
                Ok(settings) => yaml_documents(yaml@) is Ok && settings@ == settings_of(
                    yaml_documents(yaml@)->Ok_0[0],
                ),
                Err(e) => yaml_documents(yaml@) == Err::<Seq<DocumentView>, Seq<char>>(e@),
            },
    {
        match load_yaml(yaml) {
            Ok(docs) => {
                assert(documents_view(docs@)[0] == docs@[0]@);
                Ok(Settings::from_document(&docs[0]))
            },
            Err(e) => Err(e),
        }
    }

    /// Reads the bytes of a configuration file, if that can be read.
    pub fn try_from_bytes(bytes: &Vec<u8>) -> (r: Option<Result<Settings, String>>)
        ensures
            ({
                let yaml = lossy_text(bytes@);
                match r {
                    None => !settings_are_readable(yaml),
                    Some(Ok(settings)) => settings_are_readable(yaml) && yaml_documents(yaml) is Ok
                        && settings@ == settings_of(yaml_documents(yaml)->Ok_0[0]),
                    Some(Err(e)) => yaml_documents(yaml) == Err::<Seq<DocumentView>, Seq<char>>(e@),
                }
            }),
    {
        let yaml = text_from_bytes(bytes);
        if let Ok(docs) = load_yaml(&yaml) {
            if docs.len() == 0 {
                return None;
            }
            assert(documents_view(docs@)[0] == docs@[0]@);
            if let Some(table) = docs[0].table_at("env") {
                let ghost model = table_view(table@);
                let mut i: usize = 0;
                while i < table.len()
                    invariant
                        i <= table@.len(),
                        model == table_view(table@),
                        yaml_documents(yaml@) is Ok,
                        yaml_documents(yaml@)->Ok_0.len() > 0,
                        yaml_documents(yaml@)->Ok_0[0].table_at("env"@) == Some(model),
                        yaml@ == lossy_text(bytes@),
                        forall|k: int|
                            0 <= k < i ==> (#[trigger] model[k]).0 is Some && model[k].1 is Some,
                    decreases table.len() - i,
                {
                    let entry = &table[i];
                    assert(model[i as int] == (opt_text(table@[i as int].0), opt_text(
                        table@[i as int].1,
                    )));
                    if entry.0.is_none() || entry.1.is_none() {
                        return None;
                    }
                    i = i + 1;
                }
            }
        }
        Some(Settings::from_yaml(&yaml))
    }
}

impl Config {
    /// The state at the start: no jobs and no settings.
    pub fn new(dir: String, prune: usize) -> (r: Config)
        ensures
            r@.dir == dir@,
            r@.order == Seq::<Seq<char>>::empty(),
            r@.jobs == Map::<Seq<char>, JobView>::empty(),
            r@.env == Map::<Seq<char>, Seq<char>>::empty(),
            r@.http is None,
            r@.prune == prune,
    {
        let r = Config { dir, jobs: Table::new(), env: Table::new(), http: None, prune };
        assert(r@.jobs =~= Map::<Seq<char>, JobView>::empty());
        assert(r@.env =~= Map::<Seq<char>, Seq<char>>::empty());
        r
    }

    /// Takes over what the configuration file sets. Where it sets an address,
    /// `listen` says what became of it: the address, or nothing where it was
    /// none.
    pub fn process_config(&mut self, settings: Settings, listen: Option<String>)
        ensures
            final(self)@ == (ConfigView {
                env: with_entries(old(self)@.env, settings@.env),
                http: if settings@.http is Some {
                    opt_text(listen)
                } else {
                    old(self)@.http
                },
                ..old(self)@
            }),
    {
        let ghost before = self@;
        let mut i: usize = 0;
        assert(settings@.env.take(0) == Seq::<(Seq<char>, Seq<char>)>::empty());
        while i < settings.env.len()
            invariant
                i <= settings.env@.len(),
                before == old(self)@,
                self.jobs == old(self).jobs,
                self.dir == old(self).dir,
                self.http == old(self).http,
                self.prune == old(self).prune,
                self@.env == with_entries(before.env, settings@.env.take(i as int)),
            decreases settings.env.len() - i,
        {
            let ghost env = self.env@;
            let entry = &settings.env[i];
            self.env.insert(entry.0.clone(), entry.1.clone());
            assert(env_view(self.env@) =~= env_view(env).insert(entry.0@, entry.1@));
            assert(settings@.env.take(i + 1).drop_last() == settings@.env.take(i as int));
            i = i + 1;
        }
        assert(settings@.env.take(i as int) == settings@.env);
        if settings.http.is_some() {
            self.http = listen;
        }
    }

    /// Takes in the job in a directory, given its job file and whether it has a
    /// directory of runs, which is then used; unless the file cannot be read.
    pub fn read_job(&mut self, path: String, bytes: &Vec<u8>, has_runs: bool) -> (read: bool)
        ensures
            read <==> jobfile_is_readable(lossy_text(bytes@)),
            final(self)@ == if read {
                old(self)@.with_job(
                    path@,
                    JobView {
                        history: has_runs,
                        ..job_of_file(path@, lossy_text(bytes@))
                    },
                )
            } else {
                old(self)@
            },
    {
        let key = path.clone();
        match Job::try_from_bytes(path, bytes) {
            Some(mut job) => {
                if has_runs {
                    job.history = true;
                }
                proof {
                    lemma_insert_view(self.jobs@, key@, job);
                }
                self.jobs.insert(key, job);
                true
            },
            None => false,
        }
    }

    /// Checks of every job that the jobs it is scheduled after exist, and puts
    /// an error into the others. The result pairs the path of a job with each
    /// path that it is scheduled after in vain.
    pub fn check_jobs(&mut self) -> (found: Vec<(String, String)>)
        ensures
            final(self)@ == old(self)@.with_jobs_checked(),
            pair_texts(found@) == complaints(old(self)@.order, old(self)@.jobs),
    {
        let ghost before = self@;
        let ghost all = before.jobs.map_values(|j: JobView| checked(j, before.jobs));
        let mut found: Vec<(String, String)> = Vec::new();
        let n: usize = self.jobs.len();
        let mut i: usize = 0;
        assert(before.order.take(0) == Seq::<Seq<char>>::empty());
        while i < n
            invariant
                i <= n == before.order.len(),
                before.order.no_duplicates(),
                before == old(self)@,
                self.dir == old(self).dir,
                self.env == old(self).env,
                self.http == old(self).http,
                self.prune == old(self).prune,
                self@.order == before.order,
                forall|k: Seq<char>| #[trigger]
                    before.jobs.contains_key(k) <==> before.order.contains(k),
                forall|k: Seq<char>| #[trigger]
                    self@.jobs.contains_key(k) <==> before.jobs.contains_key(k),
                forall|k: int|
                    0 <= k < n ==> #[trigger] self@.jobs[before.order[k]] == if k < i {
                        checked(before.jobs[before.order[k]], before.jobs)
                    } else {
                        before.jobs[before.order[k]]
                    },
                pair_texts(found@) == complaints(before.order.take(i as int), before.jobs),
            decreases n - i,
        {
            let ghost key = before.order[i as int];
            let ghost model = before.jobs[key];
            let job = self.jobs.value_at(i);
            assert(before.order.contains(key));
            assert(self@.jobs[key] == job@);
            let ghost start = pair_texts(found@);
            let mut last: Option<String> = None;
            assert(start + missing(model, before.jobs).take(0).map_values(
                |p: Seq<char>| (model.path, p),
            ) == start);
            if let Schedule::After(paths) = &job.schedule {
                let ghost absent = |p: Seq<char>| !before.jobs.contains_key(p);
                let ghost all_paths = texts(paths@);
                let mut j: usize = 0;
                proof {
                    reveal(Seq::filter);
                }
                assert(all_paths.take(0).filter(absent) == Seq::<Seq<char>>::empty());
                assert(pair_texts(found@) == start + all_paths.take(0).filter(absent).map_values(
                    |p: Seq<char>| (model.path, p),
                ));
                while j < paths.len()
                    invariant
                        j <= paths@.len(),
                        all_paths == texts(paths@),
                        absent == (|p: Seq<char>| !before.jobs.contains_key(p)),
                        job.path@ == model.path,
                        forall|k: Seq<char>| #[trigger]
                            self@.jobs.contains_key(k) <==> before.jobs.contains_key(k),
                        pair_texts(found@) == start + all_paths.take(j as int).filter(
                            absent,
                        ).map_values(|p: Seq<char>| (model.path, p)),
                        match last {
                            Some(p) => all_paths.take(j as int).filter(absent).len() > 0
                                && all_paths.take(j as int).filter(absent).last() == p@,
                            None => all_paths.take(j as int).filter(absent).len() == 0,
                        },
                    decreases paths.len() - j,
                {
                    proof {
                        reveal(Seq::filter);
                    }
                    let ghost so_far = all_paths.take(j as int).filter(absent);
                    let ghost next = all_paths.take(j + 1);
                    assert(next.drop_last() == all_paths.take(j as int));
                    let path = &paths[j];
                    assert(next.last() == path@);
                    assert(self@.jobs.contains_key(path@) == self.jobs@.contains_key(path@));
                    if !self.jobs.contains_key(path) {
                        let ghost pairs = pair_texts(found@);
                        assert(absent(path@));
                        assert(next.filter(absent) == so_far.push(path@));
                        found.push((job.path.clone(), path.clone()));
                        assert(pair_texts(found@) == pairs.push((model.path, path@)));
                        assert(so_far.push(path@).map_values(|p: Seq<char>| (model.path, p))
                            == so_far.map_values(|p: Seq<char>| (model.path, p)).push(
                            (model.path, path@),
                        ));
                        last = Some(path.clone());
                    } else {
                        assert(!absent(path@));
                        assert(next.filter(absent) == so_far);
                    }
                    j = j + 1;
                }
                assert(all_paths.take(j as int) == all_paths);
                assert(missing(model, before.jobs) == all_paths.filter(absent));
            }
            assert(pair_texts(found@) == start + missing(model, before.jobs).map_values(
                |p: Seq<char>| (model.path, p),
            ));
            assert(before.order.take(i + 1).drop_last() == before.order.take(i as int));
            if let Some(path) = last {
                let mut new_job = job.clone();
                new_job.error = Some(chained("Scheduled after nonexistent job ", &path));
                assert(new_job@ == checked(model, before.jobs));
                proof {
                    lemma_insert_view(self.jobs@, key, new_job);
                }
                self.jobs.set_at(i, new_job);
            }
            i = i + 1;
        }
        assert(before.order.take(n as int) == before.order);
        assert(self@.jobs =~= all) by {
            assert forall|k: Seq<char>| all.contains_key(k) implies self@.jobs[k] == all[k] by {
                assert(before.jobs.contains_key(k));
                let place = before.order.index_of(k);
                assert(self@.jobs[before.order[place]] == all[k]);
            }
        }
        found
    }

    /// Begins an update of the job at a path, unless one has begun already.
    pub fn begin_update(&mut self, path: &str) -> (begun: bool)
        ensures
            begun <==> !old(self)@.is_updating(path@),
            final(self)@ == if begun {
                old(self)@.with_update_begun(path@)
            } else {
                old(self)@
            },
    {
        let mut job = match self.jobs.get(path) {
            Some(job) => {
                if job.update {
                    return false;
                }
                job.clone()
            },
            None => Job::default(),
        };
        job.update = true;
        proof {
            lemma_insert_view(self.jobs@, path@, job);
        }
        self.jobs.insert(owned(path), job);
        true
    }

    /// Ends the update of the job at a path; the result is the job as it now
    /// is, and whether it was there before.
    pub fn end_update(&mut self, path: &str, new_job: Job) -> (r: (Job, bool))
        requires
            old(self)@.jobs.contains_key(path@),
        ensures
            final(self)@ == old(self)@.with_update_ended(path@, new_job@),
            r.0@ == final(self)@.jobs[path@],
            r.1 == (old(self)@.jobs[path@].name.len() > 0),
    {
        let mut job = new_job;
        let mut known: bool = false;
        match self.jobs.get(path) {
            Some(old_job) => {
                if old_job.name.as_str().unicode_len() > 0 {
                    known = true;
                    job.running = old_job.running;
                    job.laststart = old_job.laststart;
                    job.lastrun = match &old_job.lastrun {
                        Some(run) => Some(run.clone()),
                        None => None,
                    };
                    job.history = old_job.history;
                }
            },
            None => {},
        }
        let copy = job.clone();
        proof {
            lemma_insert_view(self.jobs@, path@, job);
        }
        self.jobs.insert(owned(path), job);
        (copy, known)
    }

    /// Takes out the job at a path, if there is one.
    pub fn remove_job(&mut self, path: &str) -> (removed: bool)
        ensures
            removed <==> old(self)@.jobs.contains_key(path@),
            final(self)@ == old(self)@.without_job(path@),
    {
        let ghost jobs = self.jobs@;
        let removed = self.jobs.remove(path).is_some();
        assert(jobs_view(jobs.remove(path@)) =~= jobs_view(jobs).remove(path@));
        removed
    }
}

} // verus!
