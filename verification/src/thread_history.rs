//! The list of past conversations.
use core::ops::Range;
use vstd::prelude::*;
use vstd::string::*;

verus! {

/// What stands in place of the list while it is empty.
pub const EMPTY_LABEL: &'static str = "You don't have any past threads yet.";

/// What a conversation without a summary is called.
pub const DEFAULT_SUMMARY: &'static str = "New Thread";

/// The first second of the year -9999 and the last one of the year 9999, counted from the start of
/// 1970.
pub const MIN_TIMESTAMP: i64 = -377705116800;

pub const MAX_TIMESTAMP: i64 = 253402300799;

/// A conversation.
#[derive(Debug)]
pub struct Thread {
    pub id: String,
    pub summary: Option<String>,
    /// When it last changed, in seconds since the start of 1970.
    pub updated_at: i64,
}

/// The contents of a [`Thread`].
#[verifier::ext_equal]
pub struct ThreadView {
    pub id: Seq<char>,
    pub summary: Option<Seq<char>>,
    pub updated_at: i64,
}

impl View for Thread {
    type V = ThreadView;

    open spec fn view(&self) -> ThreadView {
        ThreadView {
            id: self.id@,
            summary: match self.summary {
                Some(summary) => Some(summary@),
                None => None,
            },
            updated_at: self.updated_at,
        }
    }
}

impl Clone for Thread {
    fn clone(&self) -> (r: Self)
        ensures
            r@ == self@,
    {
        let summary = match &self.summary {
            Some(summary) => Some(summary.clone()),
            None => None,
        };
        Thread { id: self.id.clone(), summary, updated_at: self.updated_at }
    }
}

/// A moment in UTC, by the proleptic Gregorian calendar.
#[derive(Clone, Copy, Debug, PartialEq, Eq, Structural)]
pub struct DateTime {
    pub year: i32,
    /// The day of the year, from 1.
    pub ordinal: u16,
    pub hour: u8,
    pub minute: u8,
    pub second: u8,
}

/// Whether `year` has 366 days.
pub open spec fn is_leap_year(year: int) -> bool {
    year % 4 == 0 && (year % 100 != 0 || year % 400 == 0)
}

/// How many days lie between the start of the year 1 and the start of `year`.
pub open spec fn days_before(year: int) -> int {
    365 * (year - 1) + (year - 1) / 4 - (year - 1) / 100 + (year - 1) / 400
}

impl DateTime {
    /// Whether there is such a day and such a time of day.
    pub open spec fn wf(self) -> bool {
        &&& 1 <= self.ordinal <= if is_leap_year(self.year as int) {
            366int
        } else {
            365
        }
        &&& self.hour < 24
        &&& self.minute < 60
        &&& self.second < 60
    }

    /// The seconds since the start of 1970.
    pub open spec fn timestamp(self) -> int {
        (days_before(self.year as int) - days_before(1970) + self.ordinal - 1) * 86400 + self.hour
            * 3600 + self.minute * 60 + self.second
    }
}

/// The moment of a Unix timestamp: `time::OffsetDateTime::from_unix_timestamp`.
///
/// Trusted: there is one for each second of the years -9999 to 9999, which is the range of the
/// crate without its feature for large dates, and it is the day and the time of day, in UTC, of
/// that second.
#[verifier::external_body]
fn date_time_of(timestamp: i64) -> (r: Option<DateTime>)
    ensures
        match r {
            Some(date_time) => MIN_TIMESTAMP <= timestamp <= MAX_TIMESTAMP && date_time.wf()
                && date_time.timestamp() == timestamp,
            None => !(MIN_TIMESTAMP <= timestamp <= MAX_TIMESTAMP),
        },
{
    time::OffsetDateTime::from_unix_timestamp(timestamp).ok().map(|date_time| DateTime {
        year: date_time.year(),
        ordinal: date_time.ordinal(),
        hour: date_time.hour(),
        minute: date_time.minute(),
        second: date_time.second(),
    })
}

/// What the list shows.
#[derive(Clone, Copy, Debug, PartialEq, Eq)]
pub enum ThreadHistoryContent {
    /// No conversations, and a label that says so.
    Empty(&'static str),
    /// So many conversations.
    List(usize),
}

/// What a click is to do.
#[derive(Debug)]
pub enum PanelAction {
    OpenThread(String),
    DeleteThread(String),
}

/// An entry of the list.
#[derive(Debug)]
pub struct PastThreadItem {
    pub summary: String,
    pub updated_at: DateTime,
    /// How far the user's time is ahead of UTC.
    pub utc_offset_seconds: i32,
    pub on_click: PanelAction,
    pub on_delete: PanelAction,
}

/// The list of past conversations.
#[derive(Debug)]
pub struct ThreadHistory {
    pub threads: Vec<Thread>,
}

/// A past conversation.
#[derive(Debug)]
pub struct PastThread {
    pub thread: Thread,
}

impl ThreadHistory {
    /// A list of `threads`.
    pub fn new(threads: Vec<Thread>) -> (r: Self)
        ensures
            r.threads == threads,
    {
        ThreadHistory { threads }
    }

    /// What the list shows.
    pub fn render(&self) -> (r: ThreadHistoryContent)
        ensures
            match r {
                ThreadHistoryContent::Empty(label) => self.threads@.len() == 0 && label@
                    == EMPTY_LABEL@,
                ThreadHistoryContent::List(count) => count > 0 && count == self.threads@.len(),
            },
    {
        if self.threads.len() == 0 {
            ThreadHistoryContent::Empty(EMPTY_LABEL)
        } else {
            ThreadHistoryContent::List(self.threads.len())
        }
    }

    /// The conversations of a part of the list.
    pub fn visible_threads(&self, range: Range<usize>) -> (r: Vec<PastThread>)
        requires
            range.start <= range.end <= self.threads@.len(),
        ensures
            r@.len() == range.end - range.start,
            forall|i: int|
                0 <= i < r@.len() ==> (#[trigger] r@[i]).thread@ == self.threads@[range.start
                    + i]@,
    {
        let mut visible: Vec<PastThread> = Vec::new();
        let mut i: usize = range.start;
        while i < range.end
            invariant
                range.start <= i <= range.end <= self.threads@.len(),
                visible@.len() == i - range.start,
                forall|k: int|
                    0 <= k < visible@.len() ==> (#[trigger] visible@[k]).thread@
                        == self.threads@[range.start + k]@,
            decreases range.end - i,
        {
            visible.push(PastThread::new(self.threads[i].clone()));
            i += 1;
        }
        visible
    }
}

impl PastThread {
    pub fn new(thread: Thread) -> (r: Self)
        ensures
            r.thread == thread,
    {
        PastThread { thread }
    }

    /// The entry for the conversation; without `utc_offset_seconds`, in UTC.
    pub fn render(&self, utc_offset_seconds: Option<i32>) -> (r: PastThreadItem)
        requires
            MIN_TIMESTAMP <= self.thread.updated_at <= MAX_TIMESTAMP,
        ensures
            r.summary@ == match self.thread@.summary {
                Some(summary) => summary,
                None => DEFAULT_SUMMARY@,
            },
            r.updated_at.wf(),
            r.updated_at.timestamp() == self.thread.updated_at,
            r.utc_offset_seconds == match utc_offset_seconds {
                Some(seconds) => seconds,
                None => 0,
            },
            r.on_click matches PanelAction::OpenThread(id) && id@ == self.thread@.id,
            r.on_delete matches PanelAction::DeleteThread(id) && id@ == self.thread@.id,
    {
        let summary = match &self.thread.summary {
            Some(summary) => summary.clone(),
            None => DEFAULT_SUMMARY.to_string(),
        };
        let updated_at = date_time_of(self.thread.updated_at).unwrap();
        let utc_offset_seconds: i32 = match utc_offset_seconds {
            Some(seconds) => seconds,
            None => 0,
        };
        PastThreadItem {
            summary,
            updated_at,
            utc_offset_seconds,
            on_click: PanelAction::OpenThread(self.thread.id.clone()),
            on_delete: PanelAction::DeleteThread(self.thread.id.clone()),
        }
    }
}

} // verus!
