//! One record of a timetable: eight text fields, read as they stand.
use crate::calendar::current_year;
use crate::dates::{date_components, is_dates_of, parse_dates, DateComponent};
use crate::duration::{duration_in_minutes, parse_duration};
use crate::occurrence::{
    is_occurrence_of, materialize, materialize_fault, Occurrence, RecordError,
};
use crate::walltime::{hour_and_minute, parse_time, WallTime};
use vstd::prelude::*;

verus! {

/// A record of a timetable. The fields are kept as text; nothing is read from
/// them until it is asked for.
#[derive(Clone, Debug)]
pub struct XLSEvent {
    subject_code: String,
    group: String,
    day: String,
    time: String,
    campus: String,
    location: String,
    duration: String,
    dates: String,
}

/// What a record holds: the characters of each field.
pub struct XLSEventView {
    pub subject_code: Seq<char>,
    pub group: Seq<char>,
    pub day: Seq<char>,
    pub time: Seq<char>,
    pub campus: Seq<char>,
    pub location: Seq<char>,
    pub duration: Seq<char>,
    pub dates: Seq<char>,
}

impl View for XLSEvent {
    type V = XLSEventView;

    closed spec fn view(&self) -> XLSEventView {
        XLSEventView {
            subject_code: self.subject_code@,
            group: self.group@,
            day: self.day@,
            time: self.time@,
            campus: self.campus@,
            location: self.location@,
            duration: self.duration@,
            dates: self.dates@,
        }
    }
}

impl PartialEq for XLSEvent {
    /// Two records are equal when each field of one holds the characters of
    /// the same field of the other.
    fn eq(&self, other: &Self) -> (r: bool) {
        self.subject_code == other.subject_code && self.group == other.group && self.day
            == other.day && self.time == other.time && self.campus == other.campus
            && self.location == other.location && self.duration == other.duration && self.dates
            == other.dates
    }
}

impl vstd::std_specs::cmp::PartialEqSpecImpl for XLSEvent {
    open spec fn obeys_eq_spec() -> bool {
        true
    }

    open spec fn eq_spec(&self, other: &Self) -> bool {
        self@ == other@
    }
}

/// The column of a row that holds the subject code.
pub const SUBJECT_CODE_COLUMN: usize = 0;

/// The column of a row that holds the group.
pub const GROUP_COLUMN: usize = 2;

/// The column of a row that holds the day of the week.
pub const DAY_COLUMN: usize = 4;

/// The column of a row that holds the time.
pub const TIME_COLUMN: usize = 5;

/// The column of a row that holds the campus.
pub const CAMPUS_COLUMN: usize = 6;

/// The column of a row that holds the location.
pub const LOCATION_COLUMN: usize = 7;

/// The column of a row that holds the duration.
pub const DURATION_COLUMN: usize = 9;

/// The column of a row that holds the dates.
pub const DATES_COLUMN: usize = 10;

/// The last column that a record is read from.
pub const LARGEST_COLUMN: usize = 10;

/// The record that a row of cells holds, each field taken from its column.
pub open spec fn record_of_row(row: Seq<String>) -> XLSEventView {
    XLSEventView {
        subject_code: row[SUBJECT_CODE_COLUMN as int]@,
        group: row[GROUP_COLUMN as int]@,
        day: row[DAY_COLUMN as int]@,
        time: row[TIME_COLUMN as int]@,
        campus: row[CAMPUS_COLUMN as int]@,
        location: row[LOCATION_COLUMN as int]@,
        duration: row[DURATION_COLUMN as int]@,
        dates: row[DATES_COLUMN as int]@,
    }
}

/// The most characters of a subject code that a name shows.
pub const NAME_CODE_LEN: usize = 7;

/// The name under which a record is shown: its subject code, cut after seven
/// characters, a space, and its group.
pub open spec fn event_name(subject_code: Seq<char>, group: Seq<char>) -> Seq<char> {
    let shown = if subject_code.len() > NAME_CODE_LEN {
        subject_code.take(NAME_CODE_LEN as int)
    } else {
        subject_code
    };
    shown + seq![' '] + group
}

/// The first reason, if there is one, why a record yields no occurrences in
/// the given year. The duration is looked at first, then the dates, then the
/// time, then what the three give together.
pub open spec fn record_fault(record: XLSEventView, year: int) -> Option<RecordError> {
    let duration = duration_in_minutes(record.duration);
    let dates = date_components(record.dates, year);
    let read = hour_and_minute(record.time);
    let pair = read->0;
    let time = WallTime { hour: pair.0, minute: pair.1 };
    if duration is None {
        Some(RecordError::DurationUnparseable)
    } else if dates is None {
        Some(RecordError::DateSequenceMalformed)
    } else if read is None {
        Some(RecordError::TimeMalformed)
    } else {
        materialize_fault(time, duration->0, dates->0)
    }
}

/// Whether `found` holds the occurrences of a record in the given year: one
/// for each component of its dates field, in order, each at the record's
/// time, with its duration, its name, its location and its campus.
pub open spec fn are_occurrences_of(
    found: Seq<Occurrence>,
    record: XLSEventView,
    year: int,
) -> bool {
    let duration = duration_in_minutes(record.duration)->0;
    let dates = date_components(record.dates, year)->0;
    let read = hour_and_minute(record.time)->0;
    let time = WallTime { hour: read.0, minute: read.1 };
    &&& found.len() == dates.len()
    &&& forall|i: int|
        0 <= i < found.len() ==> is_occurrence_of(
            #[trigger] found[i],
            dates[i],
            time,
            duration,
            event_name(record.subject_code, record.group),
            record.location,
            record.campus,
        )
}

impl XLSEvent {
    /// A record with the given fields.
    pub fn new(
        subject_code: String,
        group: String,
        day: String,
        time: String,
        campus: String,
        location: String,
        duration: String,
        dates: String,
    ) -> (r: Self)
        ensures
            r@ == (XLSEventView {
                subject_code: subject_code@,
                group: group@,
                day: day@,
                time: time@,
                campus: campus@,
                location: location@,
                duration: duration@,
                dates: dates@,
            }),
    {
        Self { subject_code, group, day, time, campus, location, duration, dates }
    }

    /// The record that a row of cells holds. A row that does not reach the
    /// last column holds none.
    pub fn from_row(row: &Vec<String>) -> (r: Option<Self>)
        ensures
            match r {
                Some(record) => row@.len() > LARGEST_COLUMN && record@ == record_of_row(row@),
                None => row@.len() <= LARGEST_COLUMN,
            },
    {
        if row.len() <= LARGEST_COLUMN {
            return None;
        }
        Some(
            Self::new(
                row[SUBJECT_CODE_COLUMN].clone(),
                row[GROUP_COLUMN].clone(),
                row[DAY_COLUMN].clone(),
                row[TIME_COLUMN].clone(),
                row[CAMPUS_COLUMN].clone(),
                row[LOCATION_COLUMN].clone(),
                row[DURATION_COLUMN].clone(),
                row[DATES_COLUMN].clone(),
            ),
        )
    }

    /// The location field.
    pub fn location(&self) -> (r: &String)
        ensures
            r@ == self@.location,
    {
        &self.location
    }

    /// The campus field.
    pub fn campus(&self) -> (r: &String)
        ensures
            r@ == self@.campus,
    {
        &self.campus
    }

    /// The duration field read as minutes. A value beyond `usize::MAX` is
    /// given as `usize::MAX`.
    pub fn duration_in_mins(&self) -> (r: Option<usize>)
        ensures
            r == duration_in_minutes(self@.duration),
    {
        parse_duration(self.duration.as_str())
    }

    /// The duration field.
    pub fn get_duration(&self) -> (r: &String)
        ensures
            r@ == self@.duration,
    {
        &self.duration
    }

    /// The name under which the record is shown.
    pub fn create_name(&self) -> (r: String)
        ensures
            r@ == event_name(self@.subject_code, self@.group),
    {
        let code = self.subject_code.as_str();
        let shown = if code.unicode_len() > NAME_CODE_LEN {
            code.substring_char(0, NAME_CODE_LEN)
        } else {
            code
        };
        let mut name = String::from_str(shown);
        name.append(" ");
        name.append(self.group.as_str());
        proof {
            reveal_strlit(" ");
            assert(" "@ =~= seq![' ']);
            assert(self.subject_code@.subrange(0, NAME_CODE_LEN as int)
                =~= self.subject_code@.take(NAME_CODE_LEN as int));
        }
        name
    }

    /// The dates field read in the year that the local clock shows.
    pub fn get_dates(&self) -> (r: Option<Vec<DateComponent>>)
        ensures
            exists|year: i32| is_dates_of(r, self@.dates, year as int),
            r matches Some(v) ==> forall|i: int| 0 <= i < v@.len() ==> (#[trigger] v@[i]).wf(),
    {
        let year = current_year();
        let r = parse_dates(self.dates.as_str(), year);
        assert(is_dates_of(r, self@.dates, year as int));
        r
    }

    /// The dates field read in the given year.
    pub fn get_dates_in(&self, year: i32) -> (r: Option<Vec<DateComponent>>)
        ensures
            is_dates_of(r, self@.dates, year as int),
            r matches Some(v) ==> forall|i: int| 0 <= i < v@.len() ==> (#[trigger] v@[i]).wf(),
    {
        parse_dates(self.dates.as_str(), year)
    }

    /// The time field read as an hour and a minute.
    pub fn get_time(&self) -> (r: Option<(u32, u32)>)
        ensures
            r == hour_and_minute(self@.time),
    {
        parse_time(self.time.as_str())
    }

    /// A dates text read in the year that the local clock shows.
    pub fn dates_from_string(str: String) -> (r: Option<Vec<DateComponent>>)
        ensures
            exists|year: i32| is_dates_of(r, str@, year as int),
            r matches Some(v) ==> forall|i: int| 0 <= i < v@.len() ==> (#[trigger] v@[i]).wf(),
    {
        let year = current_year();
        let r = parse_dates(str.as_str(), year);
        assert(is_dates_of(r, str@, year as int));
        r
    }

    /// A time text read as an hour and a minute.
    pub fn time_from_string(str: String) -> (r: Option<(u32, u32)>)
        ensures
            r == hour_and_minute(str@),
    {
        parse_time(str.as_str())
    }

    /// The occurrences of the record in the given year. The three fields are
    /// read each on its own; the record yields occurrences only if all three
    /// can be read.
    pub fn occurrences(&self, year: i32) -> (r: Result<Vec<Occurrence>, RecordError>)
        ensures
            match r {
                Ok(found) => record_fault(self@, year as int) is None && are_occurrences_of(
                    found@,
                    self@,
                    year as int,
                ),
                Err(e) => record_fault(self@, year as int) == Some(e),
            },
    {
        let duration = self.duration_in_mins();
        let dates = self.get_dates_in(year);
        let read = self.get_time();
        let duration = match duration {
            Some(duration) => duration,
            None => {
                return Err(RecordError::DurationUnparseable);
            },
        };
        let dates = match dates {
            Some(dates) => dates,
            None => {
                return Err(RecordError::DateSequenceMalformed);
            },
        };
        let (hour, minute) = match read {
            Some(read) => read,
            None => {
                return Err(RecordError::TimeMalformed);
            },
        };
        let name = self.create_name();
        materialize(
            WallTime { hour, minute },
            duration,
            &dates,
            name.as_str(),
            self.location.as_str(),
            self.campus.as_str(),
        )
    }
}

} // verus!
