use crate::text::{append_decimal, decimal};
use vstd::prelude::*;
use vstd::string::*;

verus! {

/// What `time` reads from `source` with the format description `format`: the Unix timestamp
/// of that date and time taken as UTC, and its minute; nothing when the description or the
/// text does not parse.
pub uninterp spec fn time_fields(source: Seq<char>, format: Seq<char>) -> Option<(i64, u8)>;

/// Reads the format description with `time::format_description::parse_borrowed::<1>`, parses
/// `source` against it with `time::PrimitiveDateTime::parse`, and converts a match with
/// `assume_utc().unix_timestamp()` and `minute()`. The contract claims that the outcome is a
/// function of the text and the description alone, and that the minute is below 60, as
/// `PrimitiveDateTime::minute` documents; how `time` reads dates is not stated.
#[verifier::external_body]
fn parse_time_fields(source: &str, format: &str) -> (fields: Option<(i64, u8)>)
    ensures
        fields == time_fields(source@, format@),
        fields matches Some((_, minute)) ==> minute < 60,
{
    let description = match time::format_description::parse_borrowed::<1>(format) {
        Ok(description) => description,
        Err(_) => return None,
    };
    match time::PrimitiveDateTime::parse(source, &description) {
        Ok(timestamp) => Some((timestamp.assume_utc().unix_timestamp(), timestamp.minute())),
        Err(_) => None,
    }
}

/// How NASA ephemeris records write their times, such as `01 Jan 2026 00:00 UT`.
pub const NASA_TIME_FORMAT: &'static str = "[day padding:zero] [month repr:short] [year] [hour]:[minute] UT";

/// What a NASA ephemeris time text reads as: its Unix timestamp and minute, if it matches.
pub open spec fn nasa_time_fields(source: Seq<char>) -> Option<(i64, u8)> {
    time_fields(source, NASA_TIME_FORMAT@)
}

/// The hourly spacing that consecutive ephemeris records must keep.
pub const SECONDS_PER_HOUR: i64 = 3600;

/// The complaint about a time that does not use the NASA format.
pub const TIME_FORMAT_REASON: &'static str = "time must use the NASA `DD Mon YYYY HH:00 UT` format";

/// The complaint about a time that is not on an exact hour.
pub const EXACT_HOUR_REASON: &'static str = "time must fall on an exact hour";

/// What a NASA ephemeris time stands for: its Unix timestamp, or the complaint about it.
pub open spec fn record_timestamp(source: Seq<char>) -> Result<i64, Seq<char>> {
    match nasa_time_fields(source) {
        None => Err(TIME_FORMAT_REASON@),
        Some((timestamp, minute)) => if minute != 0 {
            Err(EXACT_HOUR_REASON@)
        } else {
            Ok(timestamp)
        },
    }
}

/// Reads a NASA ephemeris time, such as `01 Jan 2026 00:00 UT`, as a Unix timestamp.
pub fn parse_timestamp(source: &str) -> (timestamp: Result<i64, &'static str>)
    ensures
        match record_timestamp(source@) {
            Ok(expected) => timestamp == Ok::<i64, &'static str>(expected),
            Err(reason) => timestamp matches Err(found) && found@ == reason,
        },
{
    match parse_time_fields(source, NASA_TIME_FORMAT) {
        None => Err(TIME_FORMAT_REASON),
        Some((timestamp, minute)) => if minute != 0 {
            Err(EXACT_HOUR_REASON)
        } else {
            Ok(timestamp)
        },
    }
}

/// Why NASA ephemeris data was refused.
#[derive(Debug, Clone, PartialEq, Eq)]
pub enum EphemerisError {
    InvalidJson(String),
    EmptyData,
    InvalidRecord { index: usize, reason: &'static str },
    DuplicateTimestamp { index: usize },
    NonHourlyTimestamp { index: usize },
}

impl EphemerisError {
    pub fn to_string(&self) -> (message: String)
        ensures
            match self {
                EphemerisError::InvalidJson(reason) => message@
                    == "invalid NASA lunar ephemeris JSON: "@ + reason@,
                EphemerisError::EmptyData => message@
                    == "NASA lunar ephemeris has no hourly records"@,
                EphemerisError::InvalidRecord { index, reason } => message@
                    == "invalid NASA lunar ephemeris record "@ + decimal(*index as nat) + ": "@
                    + reason@,
                EphemerisError::DuplicateTimestamp { index } => message@
                    == "duplicate NASA lunar ephemeris timestamp at record "@ + decimal(
                    *index as nat,
                ),
                EphemerisError::NonHourlyTimestamp { index } => message@
                    == "NASA lunar ephemeris record "@ + decimal(*index as nat)
                    + " is not the next hourly sample"@,
            },
    {
        match self {
            EphemerisError::InvalidJson(reason) => {
                let mut message = String::from_str("invalid NASA lunar ephemeris JSON: ");
                message.append(reason.as_str());
                message
            },
            EphemerisError::EmptyData => String::from_str(
                "NASA lunar ephemeris has no hourly records",
            ),
            EphemerisError::InvalidRecord { index, reason } => {
                let mut message = String::from_str("invalid NASA lunar ephemeris record ");
                append_decimal(&mut message, *index as u64);
                message.append(": ");
                message.append(reason);
                message
            },
            EphemerisError::DuplicateTimestamp { index } => {
                let mut message = String::from_str(
                    "duplicate NASA lunar ephemeris timestamp at record ",
                );
                append_decimal(&mut message, *index as u64);
                message
            },
            EphemerisError::NonHourlyTimestamp { index } => {
                let mut message = String::from_str("NASA lunar ephemeris record ");
                append_decimal(&mut message, *index as u64);
                message.append(" is not the next hourly sample");
                message
            },
        }
    }
}

/// The complaint about record `index`, if any: its time is checked first, then the outcome of
/// checking its coordinates and position angle.
pub open spec fn record_problem(
    times: Seq<Seq<char>>,
    coordinate_problems: Seq<Option<&'static str>>,
    index: int,
) -> Option<Seq<char>> {
    match record_timestamp(times[index]) {
        Err(reason) => Some(reason),
        Ok(_) => match coordinate_problems[index] {
            Some(reason) => Some(reason@),
            None => None,
        },
    }
}

/// The first record at or after `index` that has a complaint.
pub open spec fn first_invalid_record(
    times: Seq<Seq<char>>,
    coordinate_problems: Seq<Option<&'static str>>,
    index: int,
) -> Option<int>
    decreases times.len() - index,
{
    if index < 0 || index >= times.len() {
        None
    } else if record_problem(times, coordinate_problems, index) is Some {
        Some(index)
    } else {
        first_invalid_record(times, coordinate_problems, index + 1)
    }
}

/// The timestamp of each record, for records whose times are all valid.
pub open spec fn record_timestamps(times: Seq<Seq<char>>) -> Seq<i64> {
    times.map_values(
        |time: Seq<char>|
            match record_timestamp(time) {
                Ok(timestamp) => timestamp,
                Err(_) => 0,
            },
    )
}

/// The first position at or after `index` whose timestamp is not one hour after the one
/// before it.
pub open spec fn first_irregular_interval(timestamps: Seq<i64>, index: int) -> Option<int>
    decreases timestamps.len() - index,
{
    if index < 1 || index >= timestamps.len() {
        None
    } else if timestamps[index] - timestamps[index - 1] != SECONDS_PER_HOUR {
        Some(index)
    } else {
        first_irregular_interval(timestamps, index + 1)
    }
}

fn check_hourly_records(
    times: &Vec<String>,
    coordinate_problems: &Vec<Option<&'static str>>,
) -> (first_timestamp: Result<i64, EphemerisError>)
    requires
        times.len() == coordinate_problems.len(),
    ensures
        ({
            let views = times@.map_values(|time: String| time@);
            let problems = coordinate_problems@;
            let timestamps = record_timestamps(views);
            if views.len() == 0 {
                first_timestamp matches Err(EphemerisError::EmptyData)
            } else if first_invalid_record(views, problems, 0) is Some {
                let index = first_invalid_record(views, problems, 0).unwrap();
                first_timestamp matches Err(EphemerisError::InvalidRecord { index: found, reason })
                    && found == index && reason@ == record_problem(views, problems, index).unwrap()
            } else if first_irregular_interval(timestamps, 1) is Some {
                let index = first_irregular_interval(timestamps, 1).unwrap();
                if timestamps[index] == timestamps[index - 1] {
                    first_timestamp matches Err(EphemerisError::DuplicateTimestamp { index: found })
                        && found == index
                } else {
                    first_timestamp matches Err(EphemerisError::NonHourlyTimestamp { index: found })
                        && found == index
                }
            } else {
                first_timestamp == Ok::<i64, EphemerisError>(timestamps[0])
            }
        }),
{
    let ghost views = times@.map_values(|time: String| time@);
    let ghost problems = coordinate_problems@;
    let count = times.len();
    if count == 0 {
        return Err(EphemerisError::EmptyData);
    }
    let mut timestamps: Vec<i64> = Vec::new();
    let mut index: usize = 0;
    while index < count
        invariant
            count == times.len(),
            count == coordinate_problems.len(),
            views == times@.map_values(|time: String| time@),
            problems == coordinate_problems@,
            index <= count,
            first_invalid_record(views, problems, 0) == first_invalid_record(
                views,
                problems,
                index as int,
            ),
            timestamps@.len() == index,
            forall|i: int|
                0 <= i < index ==> timestamps@[i] == #[trigger] record_timestamps(views)[i],
        decreases count - index,
    {
        assert(views[index as int] == times@[index as int]@);
        let timestamp = match parse_timestamp(times[index].as_str()) {
            Ok(timestamp) => timestamp,
            Err(reason) => {
                return Err(EphemerisError::InvalidRecord { index, reason });
            },
        };
        match coordinate_problems[index] {
            Some(reason) => {
                return Err(EphemerisError::InvalidRecord { index, reason });
            },
            None => {},
        }
        timestamps.push(timestamp);
        index += 1;
    }
    let ghost stamps = record_timestamps(views);
    assert(timestamps@ =~= stamps);
    let mut position: usize = 1;
    while position < count
        invariant
            count == timestamps@.len(),
            count == times.len(),
            stamps == timestamps@,
            views == times@.map_values(|time: String| time@),
            problems == coordinate_problems@,
            stamps == record_timestamps(views),
            first_invalid_record(views, problems, 0) is None,
            1 <= position <= count,
            first_irregular_interval(stamps, 1) == first_irregular_interval(
                stamps,
                position as int,
            ),
        decreases count - position,
    {
        let interval = timestamps[position] as i128 - timestamps[position - 1] as i128;
        if interval == 0 {
            return Err(EphemerisError::DuplicateTimestamp { index: position });
        }
        if interval != 3600 {
            return Err(EphemerisError::NonHourlyTimestamp { index: position });
        }
        position += 1;
    }
    Ok(timestamps[0])
}

/// Whether the first `count` times are valid and each exactly one hour after the one before.
pub open spec fn hourly_prefix(times: Seq<Seq<char>>, count: int) -> bool {
    forall|i: int|
        0 <= i < count ==> (record_timestamp(#[trigger] times[i]) matches Ok(stamp) && (
        record_timestamp(times[0]) matches Ok(first) && stamp == first + 3600 * i))
}

proof fn lemma_no_invalid_record(
    times: Seq<Seq<char>>,
    coordinate_problems: Seq<Option<&'static str>>,
    start: int,
)
    requires
        0 <= start,
        first_invalid_record(times, coordinate_problems, start) is None,
    ensures
        forall|i: int|
            start <= i < times.len() ==> #[trigger] record_problem(times, coordinate_problems, i)
                is None,
    decreases times.len() - start,
{
    if start < times.len() {
        lemma_no_invalid_record(times, coordinate_problems, start + 1);
    }
}

proof fn lemma_hourly_until(timestamps: Seq<i64>, start: int, end: int)
    requires
        1 <= start,
        start <= end <= timestamps.len(),
        first_irregular_interval(timestamps, start) == if end == timestamps.len() {
            None::<int>
        } else {
            Some(end)
        },
    ensures
        forall|i: int| start <= i < end ==> #[trigger] timestamps[i] - timestamps[i - 1] == 3600,
        end < timestamps.len() ==> timestamps[end] - timestamps[end - 1] != 3600,
    decreases timestamps.len() - start,
{
    assert(SECONDS_PER_HOUR == 3600);
    if start < timestamps.len() && first_irregular_interval(timestamps, start + 1) is Some {
        lemma_first_irregular_in_range(timestamps, start + 1);
    }
    if start < end {
        lemma_hourly_until(timestamps, start + 1, end);
    }
}

proof fn lemma_hourly_from_first(timestamps: Seq<i64>, end: int)
    requires
        1 <= end <= timestamps.len(),
        forall|i: int| 1 <= i < end ==> #[trigger] timestamps[i] - timestamps[i - 1] == 3600,
    ensures
        forall|i: int| 0 <= i < end ==> #[trigger] timestamps[i] == timestamps[0] + 3600 * i,
    decreases end,
{
    if end > 1 {
        lemma_hourly_from_first(timestamps, end - 1);
        assert(timestamps[end - 1] - timestamps[end - 2] == 3600);
    }
}

/// Checks a list of NASA ephemeris records, given the time text of each and the outcome of
/// checking its coordinates and position angle, and yields the first record's timestamp.
/// Records are checked in order, and every record before the hourly spacing between them.
/// An accepted list has every record valid, each exactly one hour after the one before it;
/// a refused spacing names the first record that is not one hour after its predecessor.
pub fn validate_hourly_records(
    times: &Vec<String>,
    coordinate_problems: &Vec<Option<&'static str>>,
) -> (first_timestamp: Result<i64, EphemerisError>)
    requires
        times.len() == coordinate_problems.len(),
    ensures
        ({
            let views = times@.map_values(|time: String| time@);
            let problems = coordinate_problems@;
            let timestamps = record_timestamps(views);
            if views.len() == 0 {
                first_timestamp matches Err(EphemerisError::EmptyData)
            } else if first_invalid_record(views, problems, 0) is Some {
                let index = first_invalid_record(views, problems, 0).unwrap();
                first_timestamp matches Err(EphemerisError::InvalidRecord { index: found, reason })
                    && found == index && reason@ == record_problem(views, problems, index).unwrap()
            } else if first_irregular_interval(timestamps, 1) is Some {
                let index = first_irregular_interval(timestamps, 1).unwrap();
                if timestamps[index] == timestamps[index - 1] {
                    first_timestamp matches Err(EphemerisError::DuplicateTimestamp { index: found })
                        && found == index
                } else {
                    first_timestamp matches Err(EphemerisError::NonHourlyTimestamp { index: found })
                        && found == index
                }
            } else {
                first_timestamp == Ok::<i64, EphemerisError>(timestamps[0])
            }
        }),
        first_timestamp matches Ok(first) ==> times.len() > 0 && forall|i: int|
            0 <= i < times.len() ==> #[trigger] coordinate_problems@[i] is None && (record_timestamp(
                times@[i]@,
            ) matches Ok(stamp) && stamp == first + 3600 * i),
        first_timestamp matches Err(EphemerisError::DuplicateTimestamp { index }) ==> 1 <= index
            < times.len() && record_timestamp(times@[index as int]@) is Ok && record_timestamp(
            times@[index as int]@,
        ) == record_timestamp(times@[index - 1]@),
        first_timestamp matches Err(EphemerisError::NonHourlyTimestamp { index }) ==> 1 <= index
            < times.len() && (record_timestamp(times@[index as int]@) matches Ok(later) && (
            record_timestamp(times@[index - 1]@) matches Ok(earlier) && later - earlier != 3600
            && later != earlier)),
        first_timestamp matches Err(EphemerisError::EmptyData) <==> times.len() == 0,
        first_timestamp matches Err(EphemerisError::InvalidRecord { index, reason }) ==> {
            &&& index < times.len()
            &&& forall|i: int|
                0 <= i < index ==> #[trigger] coordinate_problems@[i] is None && record_timestamp(
                    times@[i]@,
                ) is Ok
            &&& match record_timestamp(times@[index as int]@) {
                Err(complaint) => reason@ == complaint,
                Ok(_) => coordinate_problems@[index as int] matches Some(problem) && problem@
                    == reason@,
            }
        },
        first_timestamp matches Err(EphemerisError::DuplicateTimestamp { index }) ==> hourly_prefix(
            times@.map_values(|time: String| time@),
            index as int,
        ),
        first_timestamp matches Err(EphemerisError::NonHourlyTimestamp { index }) ==> hourly_prefix(
            times@.map_values(|time: String| time@),
            index as int,
        ),
{
    let outcome = check_hourly_records(times, coordinate_problems);
    proof {
        let views = times@.map_values(|time: String| time@);
        let timestamps = record_timestamps(views);
        if let Err(EphemerisError::InvalidRecord { index, reason }) = outcome {
            lemma_first_invalid_record(views, coordinate_problems@, 0);
            assert forall|i: int| 0 <= i < index implies #[trigger] coordinate_problems@[i] is None
                && record_timestamp(times@[i]@) is Ok by {
                assert(views[i] == times@[i]@);
                assert(record_problem(views, coordinate_problems@, i) is None);
            }
            assert(views[index as int] == times@[index as int]@);
        }
        if views.len() > 0 && first_invalid_record(views, coordinate_problems@, 0) is None {
            lemma_accepted_records(views, coordinate_problems@);
            match outcome {
                Err(EphemerisError::InvalidRecord { .. }) => {},
                Ok(first) => {
                    assert forall|i: int| 0 <= i < times.len() implies #[trigger] coordinate_problems@[i] is None
                        && (record_timestamp(times@[i]@) matches Ok(stamp) && stamp == first + 3600
                        * i) by {
                        assert(views[i] == times@[i]@);
                        assert(views[0] == times@[0]@);
                        assert(record_timestamp(views[i]) == Ok::<i64, Seq<char>>(timestamps[i]));
                    }
                },
                Err(EphemerisError::DuplicateTimestamp { index }) => {
                    assert(views[index as int] == times@[index as int]@);
                    assert(views[index - 1] == times@[index - 1]@);
                    assert(record_timestamp(views[index as int]) == Ok::<i64, Seq<char>>(
                        timestamps[index as int],
                    ));
                    assert(record_timestamp(views[index - 1]) == Ok::<i64, Seq<char>>(
                        timestamps[index - 1],
                    ));
                },
                Err(EphemerisError::NonHourlyTimestamp { index }) => {
                    assert(views[index as int] == times@[index as int]@);
                    assert(views[index - 1] == times@[index - 1]@);
                    assert(record_timestamp(views[index as int]) == Ok::<i64, Seq<char>>(
                        timestamps[index as int],
                    ));
                    assert(record_timestamp(views[index - 1]) == Ok::<i64, Seq<char>>(
                        timestamps[index - 1],
                    ));
                },
                _ => {},
            }
        }
    }
    outcome
}

proof fn lemma_accepted_records(times: Seq<Seq<char>>, coordinate_problems: Seq<Option<&'static str>>)
    requires
        times.len() == coordinate_problems.len(),
        times.len() > 0,
        first_invalid_record(times, coordinate_problems, 0) is None,
    ensures
        forall|i: int|
            0 <= i < times.len() ==> coordinate_problems[i] is None && record_timestamp(
                #[trigger] times[i],
            ) == Ok::<i64, Seq<char>>(record_timestamps(times)[i]),
        first_irregular_interval(record_timestamps(times), 1) is None ==> hourly_prefix(
            times,
            times.len() as int,
        ),
        first_irregular_interval(record_timestamps(times), 1) matches Some(index) ==> {
            let timestamps = record_timestamps(times);
            &&& 1 <= index < times.len()
            &&& hourly_prefix(times, index)
            &&& timestamps[index] - timestamps[index - 1] != 3600
        },
{
    let timestamps = record_timestamps(times);
    lemma_no_invalid_record(times, coordinate_problems, 0);
    assert forall|i: int| 0 <= i < times.len() implies coordinate_problems[i] is None
        && record_timestamp(#[trigger] times[i]) == Ok::<i64, Seq<char>>(timestamps[i]) by {
        assert(record_problem(times, coordinate_problems, i) is None);
    }
    let end = match first_irregular_interval(timestamps, 1) {
        Some(index) => index,
        None => times.len() as int,
    };
    if first_irregular_interval(timestamps, 1) is Some {
        lemma_first_irregular_in_range(timestamps, 1);
    }
    lemma_hourly_until(timestamps, 1, end);
    lemma_hourly_from_first(timestamps, end);
    assert forall|i: int| 0 <= i < end implies (record_timestamp(#[trigger] times[i]) matches Ok(
        stamp,
    ) && (record_timestamp(times[0]) matches Ok(first) && stamp == first + 3600 * i)) by {
        assert(coordinate_problems[i] is None);
        assert(coordinate_problems[0] is None);
    }
}

proof fn lemma_first_invalid_record(
    times: Seq<Seq<char>>,
    coordinate_problems: Seq<Option<&'static str>>,
    start: int,
)
    requires
        0 <= start,
        first_invalid_record(times, coordinate_problems, start) is Some,
    ensures
        ({
            let found = first_invalid_record(times, coordinate_problems, start).unwrap();
            &&& start <= found < times.len()
            &&& record_problem(times, coordinate_problems, found) is Some
            &&& forall|i: int|
                start <= i < found ==> #[trigger] record_problem(times, coordinate_problems, i)
                    is None
        }),
    decreases times.len() - start,
{
    if start < times.len() && record_problem(times, coordinate_problems, start) is None {
        lemma_first_invalid_record(times, coordinate_problems, start + 1);
    }
}

proof fn lemma_first_irregular_in_range(timestamps: Seq<i64>, start: int)
    requires
        1 <= start,
        first_irregular_interval(timestamps, start) is Some,
    ensures
        start <= first_irregular_interval(timestamps, start).unwrap() < timestamps.len(),
    decreases timestamps.len() - start,
{
    if start < timestamps.len() && first_irregular_interval(timestamps, start) != Some(start) {
        lemma_first_irregular_in_range(timestamps, start + 1);
    }
}

} // verus!
