//! A job runner: jobs described by small YAML files, started by a cron
//! expression or after other jobs, their runs recorded and pruned.

pub mod clock;
pub mod config;
pub mod config_laws;
pub mod control;
pub mod duration;
pub mod execution;
pub mod job;
pub mod job_laws;
pub mod laws;
pub mod order;
pub mod outside;
pub mod path;
pub mod run;
pub mod runner;
pub mod schedule;
pub mod table;
pub mod text;
pub mod text_laws;
pub mod watch;
pub mod web;
pub mod web_laws;
pub mod yaml;

pub use duration::duration_from;
