use vstd::prelude::*;
use chrono::{Datelike, Local, NaiveDate, NaiveDateTime, TimeZone, Timelike};
use crate::record::CivilTime;

verus! {

/// What chrono's `NaiveDateTime::parse_from_str` reads from `s` under the
/// format `fmt`, as a civil date and time.
pub uninterp spec fn parsed_civil(s: Seq<char>, fmt: Seq<char>) -> Option<CivilTime>;

/// `s` without leading and trailing whitespace, as `str::trim` gives it.
pub uninterp spec fn trimmed(s: Seq<char>) -> Seq<char>;

/// Relies on chrono's `NaiveDateTime::parse_from_str`: the result depends on
/// the text and the format alone; it is read through the `Datelike` and
/// `Timelike` accessors, whose documented ranges are the calendar ranges.
#[verifier::external_body]
fn parse_civil(s: &str, fmt: &str) -> (r: Option<CivilTime>)
    ensures
        r == parsed_civil(s@, fmt@),
        r matches Some(c) ==> c.wf(),
{
    match NaiveDateTime::parse_from_str(s, fmt) {
        Ok(d) => Some(CivilTime {
            year: d.year(),
            month: d.month(),
            day: d.day(),
            hour: d.hour(),
            minute: d.minute(),
            second: d.second(),
        }),
        Err(_) => None,
    }
}

/// Relies on `str::trim`: the result depends on the text alone.
#[verifier::external_body]
fn trim(s: &str) -> (r: &str)
    ensures
        r@ == trimmed(s@),
{
    s.trim()
}

/// Relies on chrono's `Local.timestamp_opt(secs, 0).single()`: the local
/// date and time of an instant, by this machine's time zone, read through
/// the `Datelike` and `Timelike` accessors, whose documented ranges are the
/// calendar ranges. Nothing more is promised: the result depends on the
/// machine's time zone.
#[verifier::external_body]
pub(crate) fn local_civil(secs: i64) -> (r: Option<CivilTime>)
    ensures
        r matches Some(c) ==> c.wf(),
{
    match Local.timestamp_opt(secs, 0).single() {
        Some(d) => Some(CivilTime {
            year: d.year(),
            month: d.month(),
            day: d.day(),
            hour: d.hour(),
            minute: d.minute(),
            second: d.second(),
        }),
        None => None,
    }
}

/// Relies on chrono's `NaiveDate::from_ymd_opt` and `and_hms_opt`, which
/// form the date and time, and `NaiveDateTime::and_local_timezone(Local)
/// .single()`, which gives the instant (seconds since the Unix epoch) that
/// it names in this machine's time zone when it names exactly one. Nothing
/// is promised of the result: it depends on the machine's time zone.
#[verifier::external_body]
fn local_seconds(c: &CivilTime) -> (r: Option<i64>) {
    let date = match NaiveDate::from_ymd_opt(c.year, c.month, c.day) {
        Some(d) => d,
        None => return None,
    };
    let naive = match date.and_hms_opt(c.hour, c.minute, c.second) {
        Some(n) => n,
        None => return None,
    };
    match naive.and_local_timezone(Local).single() {
        Some(t) => Some(t.timestamp()),
        None => None,
    }
}

/// The first value present among `fields`.
pub open spec fn first_present(fields: Seq<Option<String>>) -> Option<Seq<char>>
    decreases fields.len(),
{
    if fields.len() == 0 {
        None
    } else {
        match fields[0] {
            Some(s) => Some(s@),
            None => first_present(fields.drop_first()),
        }
    }
}

/// An embedded image date, read as `YYYY:MM:DD HH:MM:SS`, else as
/// `YYYY-MM-DD HH:MM:SS`.
pub open spec fn image_date(s: Seq<char>) -> Option<CivilTime> {
    match parsed_civil(s, "%Y:%m:%d %H:%M:%S"@) {
        Some(c) => Some(c),
        None => parsed_civil(s, "%Y-%m-%d %H:%M:%S"@),
    }
}

/// The date that an image's embedded date fields give: the first field
/// present, read as `image_date` reads it.
pub open spec fn image_civil_time_spec(fields: Seq<Option<String>>) -> Option<CivilTime> {
    match first_present(fields) {
        Some(s) => image_date(s),
        None => None,
    }
}

/// The creation date of an image from its embedded date fields, in order of
/// preference (a missing field is `None`): the first field present, read
/// as `image_date` reads it.
pub fn image_civil_time(fields: &Vec<Option<String>>) -> (r: Option<CivilTime>)
    ensures
        r == image_civil_time_spec(fields@),
{
    let mut i: usize = 0;
    assert(fields@.subrange(0, fields@.len() as int) =~= fields@);
    while i < fields.len()
        invariant
            i <= fields@.len(),
            first_present(fields@) == first_present(fields@.subrange(i as int, fields@.len() as int)),
        decreases fields@.len() - i,
    {
        let ghost rest = fields@.subrange(i as int, fields@.len() as int);
        assert(rest.drop_first() =~= fields@.subrange(i + 1, fields@.len() as int));
        match &fields[i] {
            Some(s) => {
                let first = parse_civil(s.as_str(), "%Y:%m:%d %H:%M:%S");
                if first.is_some() {
                    return first;
                }
                return parse_civil(s.as_str(), "%Y-%m-%d %H:%M:%S");
            },
            None => {},
        }
        i = i + 1;
    }
    assert(fields@.subrange(i as int, fields@.len() as int).len() == 0);
    None
}

/// The creation date of a video from its container's `creation_time`
/// entry: the trimmed text read as `YYYY-MM-DDTHH:MM:SS`, with fractional
/// seconds and a zone name after it.
pub fn video_civil_time(creation_time: &str) -> (r: Option<CivilTime>)
    ensures
        r == parsed_civil(trimmed(creation_time@), "%Y-%m-%dT%H:%M:%S%.f%Z"@),
{
    parse_civil(trim(creation_time), "%Y-%m-%dT%H:%M:%S%.f%Z")
}

/// The instant named by an image's embedded date fields in local time;
/// `None` whenever no date can be read from them.
pub fn image_timestamp(fields: &Vec<Option<String>>) -> (r: Option<i64>)
    ensures
        r is Some ==> image_civil_time_spec(fields@) is Some,
{
    match image_civil_time(fields) {
        Some(c) => local_seconds(&c),
        None => None,
    }
}

/// The instant named by a video's `creation_time` entry in local time;
/// `None` whenever no date can be read from it.
pub fn video_timestamp(creation_time: &str) -> (r: Option<i64>)
    ensures
        r is Some ==> parsed_civil(trimmed(creation_time@), "%Y-%m-%dT%H:%M:%S%.f%Z"@) is Some,
{
    match video_civil_time(creation_time) {
        Some(c) => local_seconds(&c),
        None => None,
    }
}

} // verus!
