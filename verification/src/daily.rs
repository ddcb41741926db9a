//! The daily update: an archive of record files, published under an address
//! that names the day before.

use crate::error::Error;
use crate::source::{member_count, members, open_archive, read_member, zip_members, Member};
use crate::whois::{parse_text, RecordView, WhoIsRecord};
use std::fmt::Write;
use vstd::prelude::*;
use vstd::string::*;

verus! {

/// The records that the members hold, member after member, or the failure
/// that stops the reading: of the first member that cannot be had, or whose
/// text does not hold well-formed records.
pub open spec fn records_of(all: Seq<Member>) -> Result<Seq<RecordView>, Error>
    decreases all.len(),
{
    if all.len() == 0 {
        Ok(Seq::empty())
    } else {
        match records_of(all.drop_last()) {
            Err(e) => Err(e),
            Ok(before) => match all.last() {
                Member::Text { name, content } => match parse_text(content) {
                    Ok(more) => Ok(before + more),
                    Err(e) => Err(Error::Parse(e)),
                },
                Member::Unreadable => Err(Error::Io),
                Member::Unopened => Err(Error::Archive),
            },
        }
    }
}

/// A failure among the first members is the failure of the whole.
pub proof fn lemma_records_failure_stays(all: Seq<Member>, k: int)
    requires
        0 <= k <= all.len(),
        records_of(all.take(k)) is Err,
    ensures
        records_of(all) == records_of(all.take(k)),
    decreases all.len(),
{
    if k == all.len() {
        assert(all.take(k) =~= all);
    } else {
        assert(all.drop_last().take(k) =~= all.take(k));
        lemma_records_failure_stays(all.drop_last(), k);
    }
}

/// The records of the archive in `bytes`.
pub open spec fn archive_records(bytes: Seq<u8>) -> Result<Seq<RecordView>, Error> {
    match zip_members(bytes) {
        Some(all) => records_of(all),
        None => Err(Error::Archive),
    }
}

/// Whether `result` is what `expected` says in mathematical values.
pub open spec fn yields(
    result: Result<Vec<WhoIsRecord>, Error>,
    expected: Result<Seq<RecordView>, Error>,
) -> bool {
    match expected {
        Ok(views) => result matches Ok(records) && records.deep_view() == views,
        Err(e) => result matches Err(error) && error == e,
    }
}

/// Extracts a downloaded archive and reads the records of every member, in
/// the archive's order. The first member that fails stops the reading, and
/// nothing is returned but its failure.
pub fn fetch(zip_file_contents: Vec<u8>) -> (result: Result<Vec<WhoIsRecord>, Error>)
    ensures
        yields(result, archive_records(zip_file_contents@)),
{
    let mut archive = match open_archive(zip_file_contents) {
        Ok(archive) => archive,
        Err(_) => {
            return Err(Error::Archive);
        },
    };
    let ghost all = members(archive);
    let count = member_count(&archive);
    let mut records: Vec<WhoIsRecord> = Vec::new();
    let mut i: usize = 0;
    assert(all.take(0) =~= Seq::<Member>::empty());
    assert(records.deep_view() =~= Seq::<RecordView>::empty());
    while i < count
        invariant
            i <= count,
            count == all.len(),
            zip_members(zip_file_contents@) == Some(all),
            members(archive) == all,
            records_of(all.take(i as int)) == Ok::<Seq<RecordView>, Error>(records.deep_view()),
        decreases count - i,
    {
        proof {
            assert(all.take(i + 1).drop_last() =~= all.take(i as int));
            assert(all.take(i + 1).last() == all[i as int]);
        }
        let content = match read_member(&mut archive, i) {
            Ok(Ok((_, Ok(content)))) => content,
            Ok(Ok((_, Err(_)))) => {
                proof {
                    lemma_records_failure_stays(all, i + 1);
                }
                return Err(Error::Io);
            },
            Ok(Err(_)) => {
                proof {
                    lemma_records_failure_stays(all, i + 1);
                }
                return Err(Error::Archive);
            },
            Err(_) => {
                proof {
                    lemma_records_failure_stays(all, i + 1);
                }
                return Err(Error::Archive);
            },
        };
        match WhoIsRecord::from_buffer(content.as_str()) {
            Ok(mut more) => {
                let ghost before = records.deep_view();
                let ghost added = more.deep_view();
                records.append(&mut more);
                assert(records.deep_view() =~= before + added);
            },
            Err(e) => {
                proof {
                    lemma_records_failure_stays(all, i + 1);
                }
                return Err(e);
            },
        }
        i += 1;
    }
    assert(all.take(count as int) =~= all);
    Ok(records)
}

/// The address of the update that is named by `code` and the day `day`.
pub open spec fn url_text(code: Seq<char>, day: Seq<char>) -> Seq<char> {
    "https://bigdomaindata.s3.amazonaws.com/updates/"@ + code + "_"@ + day + ".zip"@
}

/// The address of the update that is named by `code` and the day `day`,
/// which is written as year, month and day with hyphens between them.
pub fn download_url(code: &str, day: &str) -> (url: String)
    ensures
        url@ == url_text(code@, day@),
{
    let mut url = "https://bigdomaindata.s3.amazonaws.com/updates/".to_owned();
    url.append(code);
    url.append("_");
    url.append(day);
    url.append(".zip");
    url
}

/// How many days before today the day of the daily update is.
pub const DAYS_BACK: i64 = 1;

/// The day that lies `days_back` days before the instant `seconds` seconds
/// after the beginning of 1970, as a clock that is `offset` seconds ahead of
/// universal time shows it and as `chrono` writes it in `format`. There is
/// none where the offset, the instant, the number of days or the day is out
/// of range, or the format cannot be written.
pub uninterp spec fn day_text(seconds: int, offset: int, days_back: int, format: Seq<char>) -> Option<
    Seq<char>,
>;

/// The address of the update that is named by `code` and the day, where
/// there is a day.
pub open spec fn url_of(code: Seq<char>, day: Option<Seq<char>>) -> Option<Seq<char>> {
    match day {
        Some(day) => Some(url_text(code, day)),
        None => None,
    }
}

/// The address of the update of the day before the instant `seconds`, on a
/// clock that is `offset` seconds ahead of universal time. The day is
/// written as year, month and day with hyphens between them. There is no
/// address where there is no such day.
pub fn daily_url_at(code: &str, seconds: i64, offset: i32) -> (url: Option<String>)
    ensures
        url.deep_view() == url_of(
            code@,
            day_text(seconds as int, offset as int, DAYS_BACK as int, "%Y-%m-%d"@),
        ),
{
    match write_day(seconds, offset, DAYS_BACK, "%Y-%m-%d") {
        Some(day) => Some(download_url(code, day.as_str())),
        None => None,
    }
}

/// The address of the update of the day before today: of the day before now
/// as the local clock showed it then, written as year, month and day with
/// hyphens between them.
pub fn daily_url(code: &str) -> (url: Option<String>)
    ensures
        exists|seconds: int, offset: int|
            url.deep_view() == url_of(
                code@,
                #[trigger] day_text(seconds, offset, DAYS_BACK as int, "%Y-%m-%d"@),
            ),
{
    let (seconds, offset) = local_clock(DAYS_BACK);
    daily_url_at(code, seconds, offset)
}

/// Reads the clock with `chrono::Local::now`: the seconds since the
/// beginning of 1970, and by how many seconds the local clock was ahead of
/// universal time `days_back` days ago. Both depend on the clock and the
/// time zone of the machine, so nothing is stated of them. The days are
/// bounded so that the earlier instant is in the range of `chrono`.
#[verifier::external_body]
fn local_clock(days_back: i64) -> (read: (i64, i32))
    requires
        0 <= days_back <= 36500,
{
    let now = chrono::Local::now();
    let earlier = now - chrono::Duration::days(days_back);
    (now.timestamp(), earlier.offset().local_minus_utc())
}

/// Writes a day with `chrono`: `FixedOffset::east_opt` makes the clock,
/// `DateTime::from_timestamp` the instant, `DateTime::checked_sub_signed`
/// goes back the days, and `DateTime::format` writes the day. Each of them
/// depends on its arguments alone. The contract only gives the outcome its
/// name.
#[verifier::external_body]
fn write_day(seconds: i64, offset: i32, days_back: i64, format: &str) -> (day: Option<String>)
    ensures
        day.deep_view() == day_text(seconds as int, offset as int, days_back as int, format@),
{
    let zone = chrono::FixedOffset::east_opt(offset)?;
    let now = chrono::DateTime::from_timestamp(seconds, 0)?.with_timezone(&zone);
    let day = now.checked_sub_signed(chrono::Duration::try_days(days_back)?)?;
    let mut text = String::new();
    write!(text, "{}", day.format(format)).ok()?;
    Some(text)
}

} // verus!
