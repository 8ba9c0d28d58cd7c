//! When jobs start.

use crate::clock::{offset_in_range, seconds_in_range, Timestamp};
use crate::outside::{cron_error, cron_includes, cron_upcoming, includes_time};
use crate::text::{chained, clone_texts, opt_text, owned, split_words, text_is, texts, words_of};
use vstd::prelude::*;

verus! {

/// When a job starts: never by itself, all the time, after other jobs, or by
/// a cron expression.
#[derive(Debug)]
pub enum Schedule {
    Never,
    Continuous,
    After(Vec<String>),
    Schedule(String),
}

/// The model of a schedule.
pub enum ScheduleView {
    Never,
    Continuous,
    After(Seq<Seq<char>>),
    Schedule(Seq<char>),
}

impl View for Schedule {
    type V = ScheduleView;

    open spec fn view(&self) -> ScheduleView {
        match self {
            Schedule::Never => ScheduleView::Never,
            Schedule::Continuous => ScheduleView::Continuous,
            Schedule::After(paths) => ScheduleView::After(texts(paths@)),
            Schedule::Schedule(expr) => ScheduleView::Schedule(expr@),
        }
    }
}

impl Clone for Schedule {
    fn clone(&self) -> (r: Schedule)
        ensures
            r@ == self@,
    {
        match self {
            Schedule::Never => Schedule::Never,
            Schedule::Continuous => Schedule::Continuous,
            Schedule::After(paths) => Schedule::After(clone_texts(paths)),
            Schedule::Schedule(expr) => Schedule::Schedule(expr.clone()),
        }
    }
}

/// Whether an instant is what `cron` answered when it was asked for the next
/// one of an expression; none if it had none to give.
pub closed spec fn cron_answered(expression: Seq<char>, next: Option<Timestamp>) -> bool {
    exists|asked: &str, answer: Option<(i64, u32, i32)>|
        {
            &&& asked@ == expression
            &&& #[trigger] call_ensures(cron_upcoming, (asked,), answer)
            &&& match answer {
                Some(t) => next matches Some(at) && (at.spec_secs(), at.spec_nanos(), at.spec_offset())
                    == t,
                None => next is None,
            }
        }
}

impl ScheduleView {
    /// Whether an instant is the next one of the schedule, as it was asked for:
    /// what `cron` answered for its expression, and none if it has none.
    pub open spec fn gave(self, next: Option<Timestamp>) -> bool {
        match self {
            ScheduleView::Schedule(expr) => cron_answered(expr, next),
            _ => next is None,
        }
    }

    /// Whether an instant is one of the cron expression of the schedule, to the
    /// second.
    pub open spec fn includes(self, at: Timestamp) -> bool {
        self matches ScheduleView::Schedule(expr) && cron_includes(
            expr,
            at.spec_secs(),
            at.spec_offset(),
        )
    }

    /// Whether an instant can be the next one of the schedule: only a cron
    /// expression that is accepted has one, and it is an instant that the
    /// expression includes, on a whole second.
    pub open spec fn allows(self, next: Option<Timestamp>) -> bool {
        next matches Some(t) ==> {
            &&& self matches ScheduleView::Schedule(expr)
            &&& cron_error(expr) is None
            &&& self.includes(t)
            &&& t.spec_nanos() == 0
        }
    }

    /// Whether the job starts after the job at a path.
    pub open spec fn follows(self, path: Seq<char>) -> bool {
        self matches ScheduleView::After(paths) && paths.contains(path)
    }
}

/// What a schedule expression means: `continuous`, whatever follows; `after`
/// and the paths of jobs; or a cron expression, which may have been refused.
pub open spec fn schedule_of(expr: Seq<char>, refusal: Option<Seq<char>>) -> Result<
    ScheduleView,
    Seq<char>,
> {
    let words = words_of(expr);
    if words[0] == "continuous"@ {
        Ok(ScheduleView::Continuous)
    } else if words[0] == "after"@ {
        if words.len() > 1 {
            Ok(ScheduleView::After(words.skip(1)))
        } else {
            Err("Invalid schedule expression: "@ + expr)
        }
    } else {
        match refusal {
            None => Ok(ScheduleView::Schedule(expr)),
            Some(e) => Err("Failed to parse schedule: "@ + e),
        }
    }
}

impl Schedule {
    /// Whether an expression is one for `cron` to judge.
    pub fn is_cron(expr: &str) -> (b: bool)
        ensures
            b == (words_of(expr@).len() > 0 && words_of(expr@)[0] != "continuous"@ && words_of(
                expr@,
            )[0] != "after"@),
    {
        let words = split_words(expr);
        assert(words@.len() > 0 ==> texts(words@)[0] == words@[0]@);
        words.len() > 0 && !text_is(&words[0], "continuous") && !text_is(&words[0], "after")
    }

    /// Reads a schedule expression, given the error with which it was refused
    /// as a cron expression, if it was.
    pub fn read(expr: &str, refusal: Option<String>) -> (r: Result<Schedule, String>)
        requires
            words_of(expr@).len() > 0,
        ensures
            match r {
                Ok(s) => schedule_of(expr@, opt_text(refusal)) == Ok::<ScheduleView, Seq<char>>(s@),
                Err(e) => schedule_of(expr@, opt_text(refusal)) == Err::<ScheduleView, Seq<char>>(
                    e@,
                ),
            },
    {
        let words = split_words(expr);
        let ghost model = texts(words@);
        assert(model[0] == words@[0]@);
        if text_is(&words[0], "continuous") {
            Ok(Schedule::Continuous)
        } else if text_is(&words[0], "after") {
            if words.len() > 1 {
                let mut paths: Vec<String> = Vec::new();
                let mut i: usize = 1;
                while i < words.len()
                    invariant
                        1 <= i <= words@.len(),
                        texts(paths@) == texts(words@).subrange(1, i as int),
                    decreases words.len() - i,
                {
                    let ghost before = texts(paths@);
                    paths.push(words[i].clone());
                    assert(texts(paths@) == before.push(words@[i as int]@));
                    i = i + 1;
                }
                assert(texts(words@).subrange(1, i as int) == texts(words@).skip(1));
                Ok(Schedule::After(paths))
            } else {
                Err(chained("Invalid schedule expression: ", expr))
            }
        } else {
            match refusal {
                None => Ok(Schedule::Schedule(owned(expr))),
                Some(e) => Err(chained("Failed to parse schedule: ", &e)),
            }
        }
    }

    /// Whether an instant is one of the cron expression of the schedule, to the
    /// second.
    pub fn includes(&self, at: &Timestamp) -> (b: bool)
        ensures
            b == self@.includes(*at),
    {
        match self {
            Schedule::Schedule(expr) => includes_time(expr, at.secs(), at.offset()),
            _ => false,
        }
    }

    /// The next instant at which a cron expression starts its job.
    pub fn upcoming(&self) -> (next: Option<Timestamp>)
        ensures
            self@.allows(next),
            self@.gave(next),
    {
        match self {
            Schedule::Schedule(expr) => self.upcoming_at(cron_upcoming(expr)),
            _ => None,
        }
    }

    /// The instant at which the job starts next, given what `cron` says of it:
    /// seconds since the epoch, nanoseconds and seconds east of Greenwich. Only
    /// a job with a cron expression starts then.
    pub fn upcoming_at(&self, next: Option<(i64, u32, i32)>) -> (start: Option<Timestamp>)
        ensures
            start is Some <==> self@ is Schedule && (next matches Some(t) && seconds_in_range(t.0)
                && t.1 < 1_000_000_000 && offset_in_range(t.2)),
            start matches Some(at) ==> (at.spec_secs(), at.spec_nanos(), at.spec_offset())
                == next->0,
    {
        match (self, next) {
            (Schedule::Schedule(_), Some((secs, nanos, offset))) => Timestamp::new(
                secs,
                nanos,
                offset,
            ),
            _ => None,
        }
    }
}

/// What counts as an answer of `cron` came from asking it: with an instant, for
/// just that instant, and without one, for none; so an instant that counts is
/// one that the expression includes.
pub(crate) proof fn answers_come_from_cron(expression: Seq<char>, next: Option<Timestamp>)
    requires
        cron_answered(expression, next),
    ensures
        next is None ==> exists|asked: &str|
            asked@ == expression && #[trigger] call_ensures(cron_upcoming, (asked,), None),
        next matches Some(at) ==> exists|asked: &str|
            asked@ == expression && #[trigger] call_ensures(
                cron_upcoming,
                (asked,),
                Some((at.spec_secs(), at.spec_nanos(), at.spec_offset())),
            ),
        next matches Some(at) ==> cron_error(expression) is None && cron_includes(
            expression,
            at.spec_secs(),
            at.spec_offset(),
        ),
{
}

} // verus!
