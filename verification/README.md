# rnr

A job runner. Every directory under the runner's directory with a `job.yml` in
it is a job: a command, and when it starts, by a cron expression or after other
jobs. Runs are recorded under `runs/` in the directory of the job, and a web
interface shows jobs, runs and their output, and starts jobs.

- `src/` decides everything: it reads job files and settings, keeps the jobs,
  plans the next start, takes a run from step to step, takes in what runs
  report, and makes the answers of the web interface. It is verified with Verus;
  `src/laws.rs` states what holds of it as a whole, and `src/outside.rs` holds
  all that it takes from other crates without proof.
- `app/` is the program around it: files, processes, sockets, the clock and the
  watching of directories.
- `tests/` runs the library on examples.
