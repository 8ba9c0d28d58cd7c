//! Runs of jobs, and how they ended.

use crate::clock::Timestamp;
use crate::duration::{duration_from, duration_text};
use crate::outside::{lossy_text, text_from_bytes};
use crate::text::{
    chained, chars_of, clone_bytes, decimal, parse_signed, part, push_decimal, signed_decimal,
    signed_of, signed_round_trip, signed_to_string,
};
use vstd::prelude::*;
use vstd::string::*;

verus! {

/// How a process ended: the status word that waiting for it gave.
#[derive(Clone, Copy, Debug, PartialEq, Eq, Structural)]
pub struct ExitStatus {
    pub raw: i32,
}

proof fn lemma_shifted_word(raw: int)
    ensures
        (raw + 4294967296) % 128 == raw % 128,
        ((raw + 4294967296) / 256) % 256 == (raw / 256) % 256,
{
    assert((raw + 4294967296) / 256 == raw / 256 + 16777216);
    let high = raw / 256;
    assert((high + 16777216) % 256 == high % 256);
}

impl ExitStatus {
    /// Whether the process ended by itself with exit code zero.
    pub open spec fn succeeded(self) -> bool {
        self.raw == 0
    }

    /// The exit code of a process that ended by itself: the second byte of a
    /// status word whose lowest seven bits are zero.
    pub open spec fn exit_code(self) -> Option<u8> {
        if self.raw % 128 == 0 {
            Some(((self.raw as int / 256) % 256) as u8)
        } else {
            None
        }
    }

    /// Whether the process ended by itself with exit code zero.
    pub fn success(&self) -> (b: bool)
        ensures
            b == self.succeeded(),
    {
        self.raw == 0
    }

    /// The exit code of a process that ended by itself.
    pub fn code(&self) -> (c: Option<u8>)
        ensures
            c == self.exit_code(),
    {
        let wide: i64 = self.raw as i64 + 4294967296;
        let high: i64 = wide / 256;
        proof {
            lemma_shifted_word(self.raw as int);
        }
        if wide % 128 == 0 {
            Some((high % 256) as u8)
        } else {
            None
        }
    }
}

/// A run: its start and, once it is over, its length in seconds, how it ended
/// and what it wrote.
#[derive(Debug)]
pub struct Run {
    pub start: Timestamp,
    pub duration: Option<u64>,
    pub status: Option<ExitStatus>,
    pub stdout: Vec<u8>,
    pub stderr: Vec<u8>,
}

/// The model of a run.
pub struct RunView {
    pub start: Timestamp,
    pub duration: Option<u64>,
    pub status: Option<ExitStatus>,
    pub stdout: Seq<u8>,
    pub stderr: Seq<u8>,
}

impl View for Run {
    type V = RunView;

    open spec fn view(&self) -> RunView {
        RunView {
            start: self.start,
            duration: self.duration,
            status: self.status,
            stdout: self.stdout@,
            stderr: self.stderr@,
        }
    }
}

impl Clone for Run {
    fn clone(&self) -> (r: Run)
        ensures
            r@ == self@,
    {
        Run {
            start: self.start,
            duration: self.duration,
            status: self.status,
            stdout: clone_bytes(&self.stdout),
            stderr: clone_bytes(&self.stderr),
        }
    }
}

/// A run as the web interface shows it.
#[derive(Debug)]
pub struct JsonRun {
    pub start: String,
    pub duration: u64,
    pub status: u8,
    pub log: String,
    pub err: String,
}

/// The model of a run as the web interface shows it.
pub struct JsonRunView {
    pub start: Seq<char>,
    pub duration: u64,
    pub status: u8,
    pub log: Seq<char>,
    pub err: Seq<char>,
}

impl View for JsonRun {
    type V = JsonRunView;

    open spec fn view(&self) -> JsonRunView {
        JsonRunView {
            start: self.start@,
            duration: self.duration,
            status: self.status,
            log: self.log@,
            err: self.err@,
        }
    }
}

impl RunView {
    /// Whether the run is over.
    pub open spec fn is_over(self) -> bool {
        self.duration is Some && self.status is Some
    }

    /// Whether the run is over and its process ended by itself, so that it has
    /// an exit code to show.
    pub open spec fn has_code(self) -> bool {
        self.is_over() && self.status->0.exit_code() is Some
    }

    /// The run as the web interface shows it.
    pub open spec fn json(self) -> JsonRunView {
        JsonRunView {
            start: self.start.rfc3339_text(),
            duration: self.duration->0,
            status: self.status->0.exit_code()->0,
            log: lossy_text(self.stdout),
            err: lossy_text(self.stderr),
        }
    }

    /// The line that reports the end of the run of the job at a path, given the
    /// exit status in words.
    pub open spec fn end_report(self, path: Seq<char>, status_words: Seq<char>) -> Seq<char> {
        let took = duration_text(self.duration->0 as int);
        if !self.status->0.succeeded() {
            "["@ + path + "] failed after "@ + took + " with "@ + status_words
        } else if self.stderr.len() == 0 {
            "["@ + path + "] finished successfully in "@ + took
        } else {
            "["@ + path + "] finished with errors in "@ + took
        }
    }
}

impl Run {
    /// The run as the web interface shows it.
    pub fn to_json(&self) -> (r: JsonRun)
        requires
            self@.has_code(),
        ensures
            r@ == self@.json(),
    {
        JsonRun {
            start: self.start.to_rfc3339(),
            duration: self.duration.unwrap(),
            status: self.status.unwrap().code().unwrap(),
            log: text_from_bytes(&self.stdout),
            err: text_from_bytes(&self.stderr),
        }
    }

    /// The line that reports the end of the run of the job at a path, given the
    /// exit status in words.
    pub fn end_report(&self, path: &str, status_words: &str) -> (line: String)
        requires
            self@.is_over(),
        ensures
            line@ == self@.end_report(path@, status_words@),
    {
        let took = duration_from(self.duration.unwrap());
        let mut line = chained("[", path);
        if self.status.unwrap().success() {
            if self.stderr.len() == 0 {
                line.append("] finished successfully in ");
            } else {
                line.append("] finished with errors in ");
            }
            line.append(&took);
        } else {
            line.append("] failed after ");
            line.append(&took);
            line.append(" with ");
            line.append(status_words);
        }
        line
    }
}

/// What the status file of a run holds: the status word in decimal, and a
/// line end.
pub open spec fn status_file_text(status: ExitStatus) -> Seq<char> {
    signed_decimal(status.raw as int).push('\n')
}

/// What a status file says: the number on its line.
pub open spec fn status_in_file(text: Seq<char>) -> Option<ExitStatus> {
    let line = if text.len() > 0 && text.last() == '\n' {
        text.drop_last()
    } else {
        text
    };
    match signed_of(line) {
        Some(raw) => Some(ExitStatus { raw }),
        None => None,
    }
}

/// Writes the contents of a status file.
pub fn status_file(status: ExitStatus) -> (s: String)
    ensures
        s@ == status_file_text(status),
{
    let mut s = signed_to_string(status.raw);
    s.push('\n');
    s
}

/// Reads the contents of a status file.
pub fn read_status(text: &str) -> (status: Option<ExitStatus>)
    ensures
        status == status_in_file(text@),
{
    let chars = chars_of(text);
    let n: usize = chars.len();
    let line = if n > 0 && chars[n - 1] == '\n' {
        part(&chars, 0, n - 1)
    } else {
        part(&chars, 0, n)
    };
    assert(text@.subrange(0, n as int) == text@);
    assert(n > 0 ==> text@.subrange(0, n - 1) == text@.drop_last());
    match parse_signed(&line) {
        Some(raw) => Some(ExitStatus { raw }),
        None => None,
    }
}

/// Writes the contents of a duration file: the seconds in decimal.
pub fn duration_file(secs: u64) -> (s: String)
    ensures
        s@ == decimal(secs as nat),
{
    let mut s = String::new();
    push_decimal(&mut s, secs);
    s
}

/// Reading a status file gives back the status that was written to it.
pub proof fn status_file_round_trip(status: ExitStatus)
    ensures
        status_in_file(status_file_text(status)) == Some(status),
{
    signed_round_trip(status.raw);
    assert(status_file_text(status).drop_last() == signed_decimal(status.raw as int));
}

/// A process that succeeded has exit code zero, so its run can be shown.
pub proof fn success_has_code_zero(status: ExitStatus)
    requires
        status.succeeded(),
    ensures
        status.exit_code() == Some(0u8),
{
}

} // verus!
