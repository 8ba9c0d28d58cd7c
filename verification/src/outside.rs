//! What the library takes from outside of it, each item with the claim that
//! the rest of the library builds on.

use crate::clock::{offset_in_range, run_name_format, seconds_in_range};
use crate::text::{opt_text, texts};
use crate::yaml::{documents_view, Document, DocumentView, Node};
use std::str::FromStr;
use vstd::prelude::*;
use vstd::utf8::{decode_utf8, valid_utf8};
use yaml_rust2::{Yaml, YamlLoader};

verus! {

/// `String::push`: appends one character to the end of the string.
pub assume_specification[ String::push ](s: &mut String, ch: char)
    ensures
        final(s)@ == old(s)@.push(ch),
;

/// What `String::from_utf8_lossy` makes of bytes.
pub uninterp spec fn lossy_text(bytes: Seq<u8>) -> Seq<char>;

/// `String::from_utf8_lossy`: the bytes as text. Bytes that are valid UTF-8
/// come out as they are; what the replacement of invalid ones looks like in
/// full is left to the name.
#[verifier::external_body]
pub(crate) fn text_from_bytes(bytes: &[u8]) -> (s: String)
    ensures
        s@ == lossy_text(bytes@),
        valid_utf8(bytes@) ==> s@ == decode_utf8(bytes@),
{
    String::from_utf8_lossy(bytes).into_owned()
}

/// What `yaml_rust2` loads from a text: the documents, each by the entries of
/// its mapping, or the error as it is displayed.
pub uninterp spec fn yaml_documents(text: Seq<char>) -> Result<Seq<DocumentView>, Seq<char>>;

/// `yaml_rust2::YamlLoader::load_from_str`: the documents of a text, or the
/// displayed scan error. A document comes as what `Yaml::as_hash` gives of it;
/// a key as what `Yaml::as_str` gives of it; a value as what both give of it.
#[verifier::external_body]
pub(crate) fn load_yaml(text: &str) -> (r: Result<Vec<Document>, String>)
    ensures
        match r {
            Ok(docs) => yaml_documents(text@) == Ok::<Seq<DocumentView>, Seq<char>>(documents_view(docs@)),
            Err(e) => yaml_documents(text@) == Err::<Seq<DocumentView>, Seq<char>>(e@),
        },
{
    let text_of = |y: &Yaml| y.as_str().map(str::to_string);
    let node = |y: &Yaml| Node {
        text: text_of(y),
        table: y.as_hash().map(|h| h.iter().map(|(k, v)| (text_of(k), text_of(v))).collect()),
    };
    let document = |y: &Yaml| Document {
        entries: y.as_hash().map(|h| h.iter().map(|(k, v)| (text_of(k), node(v))).collect()),
    };
    match YamlLoader::load_from_str(text) {
        Ok(docs) => Ok(docs.iter().map(document).collect()),
        Err(e) => Err(e.to_string()),
    }
}

/// The displayed error with which `cron` refuses an expression; none where it
/// accepts the expression.
pub uninterp spec fn cron_error(expression: Seq<char>) -> Option<Seq<char>>;

/// `cron::Schedule::from_str`: whether the expression is a schedule, and the
/// displayed error where it is not.
#[verifier::external_body]
pub(crate) fn check_cron(expression: &str) -> (e: Option<String>)
    ensures
        opt_text(e) == cron_error(expression@),
{
    cron::Schedule::from_str(expression).err().map(|e| e.to_string())
}

/// Whether the schedule that `cron` reads from an expression includes the
/// second that many seconds after the epoch, by the calendar and the clock at
/// that many seconds east of Greenwich.
pub uninterp spec fn cron_includes(expression: Seq<char>, secs: i64, offset: i32) -> bool;

/// `cron::Schedule::includes` of an instant at a fixed offset: whether its
/// year, month, day, weekday, hour, minute and second are among those of the
/// schedule. An expression that `cron` refuses includes no instant.
#[verifier::external_body]
pub(crate) fn includes_time(expression: &str, secs: i64, offset: i32) -> (b: bool)
    requires
        seconds_in_range(secs),
        offset_in_range(offset),
    ensures
        b == cron_includes(expression@, secs, offset),
        cron_error(expression@) is Some ==> !b,
{
    let zone = chrono::FixedOffset::east_opt(offset).unwrap();
    let at = chrono::DateTime::from_timestamp(secs, 0).unwrap().with_timezone(&zone);
    cron::Schedule::from_str(expression).is_ok_and(|schedule| schedule.includes(at))
}

/// `cron::Schedule::upcoming` in the local time zone: the next instant of the
/// schedule after the present, as seconds since the epoch, nanoseconds and
/// seconds east of Greenwich. Which instant it is depends on the clock and on
/// the time zone; but it is one that the schedule includes, on a whole second,
/// and an expression that `cron` refuses has none.
#[verifier::external_body]
pub(crate) fn cron_upcoming(expression: &str) -> (next: Option<(i64, u32, i32)>)
    ensures
        cron_error(expression@) is Some ==> next is None,
        next matches Some(t) ==> seconds_in_range(t.0) && t.1 == 0 && offset_in_range(t.2),
        next matches Some(t) ==> cron_includes(expression@, t.0, t.2),
{
    let schedule = cron::Schedule::from_str(expression).ok()?;
    let next = schedule.upcoming(chrono::Local).next()?;
    Some((next.timestamp(), next.timestamp_subsec_nanos(), next.offset().local_minus_utc()))
}

/// The words into which `shell_words` splits a command line; none where a
/// quote is not closed.
pub uninterp spec fn shell_split(line: Seq<char>) -> Option<Seq<Seq<char>>>;

/// `shell_words::split`: the words of a command line. Its one error is
/// displayed as `missing closing quote`.
#[verifier::external_body]
pub(crate) fn split_command(line: &str) -> (r: Result<Vec<String>, String>)
    ensures
        match r {
            Ok(words) => shell_split(line@) == Some(texts(words@)),
            Err(e) => shell_split(line@) is None && e@ == "missing closing quote"@,
        },
{
    shell_words::split(line).map_err(|e| e.to_string())
}

/// What `chrono` writes of an instant, given as seconds since the epoch,
/// nanoseconds and seconds east of Greenwich, by RFC 3339.
pub uninterp spec fn rfc3339_text(secs: i64, nanos: u32, offset: i32) -> Seq<char>;

/// `chrono::DateTime::to_rfc3339` of an instant at a fixed offset.
#[verifier::external_body]
pub(crate) fn rfc3339(secs: i64, nanos: u32, offset: i32) -> (s: String)
    requires
        seconds_in_range(secs),
        nanos < 1_000_000_000,
        offset_in_range(offset),
    ensures
        s@ == rfc3339_text(secs, nanos, offset),
{
    let zone = chrono::FixedOffset::east_opt(offset).unwrap();
    chrono::DateTime::from_timestamp(secs, nanos).unwrap().with_timezone(&zone).to_rfc3339()
}

/// What `chrono` writes of an instant, given as above, by a format.
pub uninterp spec fn formatted_time(
    secs: i64,
    nanos: u32,
    offset: i32,
    format: Seq<char>,
) -> Seq<char>;

/// `chrono::DateTime::format` of an instant at a fixed offset, displayed.
#[verifier::external_body]
pub(crate) fn format_time(secs: i64, nanos: u32, offset: i32, format: &str) -> (s: String)
    requires
        seconds_in_range(secs),
        nanos < 1_000_000_000,
        offset_in_range(offset),
        format@ == run_name_format(),
    ensures
        s@ == formatted_time(secs, nanos, offset, format@),
{
    let zone = chrono::FixedOffset::east_opt(offset).unwrap();
    let at = chrono::DateTime::from_timestamp(secs, nanos).unwrap().with_timezone(&zone);
    at.format(format).to_string()
}

} // verus!
