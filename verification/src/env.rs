//! What a session's statements are run with: the user, the format models and
//! the time.

use chrono::{Datelike, Local, Timelike, Utc};
use vstd::prelude::*;
use vstd::string::*;

use crate::datetime;
use crate::datetime::{DateTime, Moment};
use crate::number;
use crate::text;
use crate::value::{Datum, Value};

verus! {

/// The settings of a session, and the time at which its statement started.
#[derive(Debug)]
pub struct Env {
    pub user: String,
    pub nls_date_format: String,
    pub nls_timestamp_format: String,
    /// How far the session's time zone is from UTC.
    pub tz_offset_minutes: i32,
    /// How far the machine's clock is from UTC.
    pub local_offset_minutes: i32,
    pub now_local: DateTime,
    pub now_utc: DateTime,
}

/// What statements see of a session's settings.
pub struct Setting {
    pub user: Seq<char>,
    pub date_format: Seq<char>,
    pub timestamp_format: Seq<char>,
    pub offset: int,
    pub machine: int,
    pub now_local: Moment,
    pub now_utc: Moment,
}

impl View for Env {
    type V = Setting;

    open spec fn view(&self) -> Setting {
        Setting {
            user: self.user@,
            date_format: self.nls_date_format@,
            timestamp_format: self.nls_timestamp_format@,
            offset: self.tz_offset_minutes as int,
            machine: self.local_offset_minutes as int,
            now_local: self.now_local@,
            now_utc: self.now_utc@,
        }
    }
}

impl Setting {
    /// The time in the session's time zone.
    pub open spec fn session_now(self) -> Moment {
        match datetime::shifted(self.now_utc, self.offset * 60) {
            Some(m) => m,
            None => self.now_utc,
        }
    }

    /// The text of a value; NULL has none.
    pub open spec fn text_of(self, v: Datum) -> Option<Seq<char>> {
        match v {
            Datum::Null => None,
            Datum::Number(n) => Some(number::number_text(n)),
            Datum::Text(s) => Some(s),
            Datum::Date(m) => Some(datetime::formatted(m, self.date_format)),
            Datum::Timestamp(m) => Some(datetime::formatted(m, self.timestamp_format)),
            Datum::Boolean(b) => Some(
                if b {
                    "TRUE"@
                } else {
                    "FALSE"@
                },
            ),
        }
    }

    pub open spec fn year(self) -> int {
        self.now_local.year
    }
}

/// The parts of a clock reading.
type Parts = (i32, u32, u32, u32, u32, u32, u32);

/// `chrono::Local::now`, as its parts; nothing is promised of them.
#[verifier::external_body]
fn local_parts() -> (r: Parts) {
    let d = Local::now().naive_local();
    (d.year(), d.month(), d.day(), d.hour(), d.minute(), d.second(), d.nanosecond())
}

/// `chrono::Utc::now`, as its parts; nothing is promised of them.
#[verifier::external_body]
fn utc_parts() -> (r: Parts) {
    let d = Utc::now().naive_utc();
    (d.year(), d.month(), d.day(), d.hour(), d.minute(), d.second(), d.nanosecond())
}

/// How far `chrono::Local::now` is from UTC, in minutes; nothing is promised
/// of it.
#[verifier::external_body]
fn local_offset() -> (r: i32) {
    Local::now().offset().local_minus_utc() / 60
}

/// The moment with these parts; the start of the year 1970 when there is none.
fn moment_of(p: Parts) -> (r: DateTime)
    ensures
        ({
            let m = datetime::moment(
                p.0 as int,
                p.1 as int,
                p.2 as int,
                p.3 as int,
                p.4 as int,
                p.5 as int,
                p.6 as int,
            );
            datetime::valid(m) ==> r@ == m
        }),
{
    match DateTime::new(p.0, p.1, p.2, p.3, p.4, p.5, p.6) {
        Some(d) => d,
        None => DateTime::start_of_1970(),
    }
}

impl Env {
    /// The default settings of a user's session. Names of users are in upper case.
    pub fn new(user: &str) -> (env: Env)
        ensures
            env.user@ == text::upper(user@),
            env.nls_date_format@ == datetime::DEFAULT_DATE_FORMAT@,
            env.nls_timestamp_format@ == datetime::DEFAULT_TIMESTAMP_FORMAT@,
            env@.offset == env@.machine,
    {
        let local: i32 = local_offset();
        Env {
            user: user.to_uppercase(),
            nls_date_format: datetime::DEFAULT_DATE_FORMAT.to_owned(),
            nls_timestamp_format: datetime::DEFAULT_TIMESTAMP_FORMAT.to_owned(),
            tz_offset_minutes: local,
            local_offset_minutes: local,
            now_local: moment_of(local_parts()),
            now_utc: moment_of(utc_parts()),
        }
    }

    /// Reads the clock: all of a statement runs at one time.
    pub fn start_statement(&mut self)
        ensures
            final(self).user == old(self).user,
            final(self).nls_date_format == old(self).nls_date_format,
            final(self).nls_timestamp_format == old(self).nls_timestamp_format,
            final(self).tz_offset_minutes == old(self).tz_offset_minutes,
    {
        self.now_local = moment_of(local_parts());
        self.now_utc = moment_of(utc_parts());
        self.local_offset_minutes = local_offset();
    }

    /// The time in the session's time zone.
    pub fn session_now(&self) -> (d: DateTime)
        ensures
            d@ == self@.session_now(),
    {
        match self.now_utc.shift(self.tz_offset_minutes as i64 * 60) {
            Some(d) => d,
            None => self.now_utc,
        }
    }

    /// The text of a value; NULL has none.
    pub fn to_text(&self, v: &Value) -> (r: Option<String>)
        ensures
            match r {
                Some(s) => self@.text_of(v@) == Some(s@),
                None => self@.text_of(v@) is None,
            },
    {
        match v {
            Value::Null => None,
            Value::Number(n) => Some(number::format_number(n)),
            Value::Varchar2(s) => Some(s.clone()),
            Value::Date(d) => Some(datetime::format(d, &self.nls_date_format)),
            Value::Timestamp(d) => Some(datetime::format(d, &self.nls_timestamp_format)),
            Value::Boolean(b) => Some(
                if *b {
                    "TRUE".to_owned()
                } else {
                    "FALSE".to_owned()
                },
            ),
        }
    }

    pub fn year(&self) -> (y: i32)
        ensures
            y == self@.year(),
    {
        self.now_local.year()
    }
}

} // verus!
