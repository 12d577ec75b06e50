//! Occurrences: what a calendar writer is handed for one record.
use crate::calendar::{
    lemma_minute_number_bounds, lemma_minute_number_order, precedes, CalendarDate, Timestamp,
};
use crate::dates::DateComponent;
use crate::walltime::WallTime;
use vstd::prelude::*;

verus! {

/// The minutes added past the last day of a range so that a weekly rule
/// which ends at the horizon still holds the last event in full.
pub const HORIZON_MARGIN: usize = 10;

/// Why a record yields no occurrences.
#[derive(Clone, Copy, Debug, PartialEq, Eq, Structural)]
pub enum RecordError {
    /// The duration field has no amount, or one that is no decimal numeral.
    DurationUnparseable,
    /// The dates field holds a character it may not hold, or a component
    /// that names no date.
    DateSequenceMalformed,
    /// The time field is not five characters with a colon in the middle and
    /// a numeral on each side.
    TimeMalformed,
    /// The time field names an hour past 23 or a minute past 59.
    TimeOutOfRange,
    /// The horizon of a range lies beyond the last day the calendar holds.
    HorizonOutOfRange,
}

/// One event of a calendar: a single one, or the first of a weekly series.
#[derive(Clone, Debug)]
pub struct Occurrence {
    /// When the event, or the first of the series, starts.
    pub start: Timestamp,
    /// For a series, the start of the event on its last day.
    pub end_bound: Option<Timestamp>,
    /// For a series, the moment at which its weekly rule ends.
    pub horizon: Option<Timestamp>,
    /// The length of each event in minutes.
    pub duration: usize,
    /// The name under which the event is shown.
    pub name: String,
    /// Where the event takes place.
    pub location: String,
    /// The campus of that place.
    pub campus: String,
}

impl Occurrence {
    /// When the event, or the first of the series, ends: its duration after
    /// its start, if the calendar reaches that far.
    pub fn end_time(&self) -> (r: Option<Timestamp>)
        ensures
            match r {
                Some(end) => self.start.wf() && end.wf() && end.minute_number()
                    == self.start.minute_number() + self.duration,
                None => !self.start.can_add(self.duration as int),
            },
    {
        self.start.later_by(self.duration as u64)
    }
}

impl PartialEq for Occurrence {
    /// Two occurrences are equal when their timestamps and durations are
    /// and their texts hold the same characters.
    fn eq(&self, other: &Self) -> (r: bool) {
        self.start == other.start && self.end_bound == other.end_bound && self.horizon
            == other.horizon && self.duration == other.duration && self.name == other.name
            && self.location == other.location && self.campus == other.campus
    }
}

impl vstd::std_specs::cmp::PartialEqSpecImpl for Occurrence {
    open spec fn obeys_eq_spec() -> bool {
        true
    }

    open spec fn eq_spec(&self, other: &Self) -> bool {
        &&& self.start == other.start
        &&& self.end_bound == other.end_bound
        &&& self.horizon == other.horizon
        &&& self.duration == other.duration
        &&& self.name@ == other.name@
        &&& self.location@ == other.location@
        &&& self.campus@ == other.campus@
    }
}

/// The time of day on a given day.
pub open spec fn at(date: CalendarDate, time: WallTime) -> Timestamp {
    Timestamp { date, hour: time.hour, minute: time.minute }
}

/// How far the horizon of a series lies past the start of its last event.
pub open spec fn horizon_offset(duration: usize) -> int {
    duration + HORIZON_MARGIN
}

/// Whether the horizon of a component can be written down. A single date has
/// none and needs none.
pub open spec fn has_horizon(component: DateComponent, time: WallTime, duration: usize) -> bool {
    component.end matches Some(end) ==> at(end, time).can_add(horizon_offset(duration))
}

/// The first reason, if there is one, why a time, a duration and a list of
/// components yield no occurrences: the time is none that a clock shows; or
/// a component holds a day that does not exist; or the horizon of a range
/// lies beyond the calendar.
pub open spec fn materialize_fault(
    time: WallTime,
    duration: usize,
    dates: Seq<DateComponent>,
) -> Option<RecordError> {
    if !time.wf() {
        Some(RecordError::TimeOutOfRange)
    } else if exists|i: int| 0 <= i < dates.len() && !(#[trigger] dates[i]).wf() {
        Some(RecordError::DateSequenceMalformed)
    } else if exists|i: int|
        0 <= i < dates.len() && !has_horizon(#[trigger] dates[i], time, duration) {
        Some(RecordError::HorizonOutOfRange)
    } else {
        None
    }
}

/// Whether `o` is the occurrence of a component: it starts on the
/// component's first day at the given time; a single date has neither end
/// bound nor horizon; a range has its last day at the given time as end
/// bound, and as horizon the timestamp that lies the duration and the margin
/// after it.
pub open spec fn is_occurrence_of(
    o: Occurrence,
    component: DateComponent,
    time: WallTime,
    duration: usize,
    name: Seq<char>,
    location: Seq<char>,
    campus: Seq<char>,
) -> bool {
    &&& o.start == at(component.start, time)
    &&& match component.end {
        None => o.end_bound is None && o.horizon is None,
        Some(end) => {
            &&& o.end_bound == Some(at(end, time))
            &&& o.horizon matches Some(h)
            &&& h.wf()
            &&& h.minute_number() == at(end, time).minute_number() + horizon_offset(duration)
        },
    }
    &&& o.duration == duration
    &&& o.name@ == name
    &&& o.location@ == location
    &&& o.campus@ == campus
}

/// The occurrence of a single date has no horizon. The horizon of a range
/// lies the duration and ten minutes after its end bound, and so comes
/// strictly after it.
pub proof fn lemma_horizon_follows_end(
    o: Occurrence,
    component: DateComponent,
    time: WallTime,
    duration: usize,
    name: Seq<char>,
    location: Seq<char>,
    campus: Seq<char>,
)
    requires
        component.wf(),
        time.wf(),
        is_occurrence_of(o, component, time, duration, name, location, campus),
    ensures
        component.end is None ==> o.horizon is None,
        component.end is Some ==> o.end_bound is Some && o.horizon is Some,
        component.end is Some ==> o.horizon->0.minute_number() == o.end_bound->0.minute_number()
            + duration + 10,
        component.end is Some ==> precedes(o.end_bound->0, o.horizon->0),
{
    if component.end is Some {
        lemma_minute_number_order(o.end_bound->0, o.horizon->0);
    }
}

/// A component, a time and a duration have one occurrence and no other.
pub proof fn lemma_occurrence_is_unique(
    a: Occurrence,
    b: Occurrence,
    component: DateComponent,
    time: WallTime,
    duration: usize,
    name: Seq<char>,
    location: Seq<char>,
    campus: Seq<char>,
)
    requires
        is_occurrence_of(a, component, time, duration, name, location, campus),
        is_occurrence_of(b, component, time, duration, name, location, campus),
    ensures
        a.start == b.start,
        a.end_bound == b.end_bound,
        a.horizon == b.horizon,
        a.duration == b.duration,
        a.name@ == b.name@,
        a.location@ == b.location@,
        a.campus@ == b.campus@,
{
    if component.end is Some {
        lemma_minute_number_order(a.horizon->0, b.horizon->0);
    }
}

/// The horizon of a series whose last event starts at `end`.
pub fn horizon_after(end: Timestamp, duration: usize) -> (r: Option<Timestamp>)
    ensures
        match r {
            Some(h) => end.wf() && h.wf() && h.minute_number() == end.minute_number()
                + horizon_offset(duration),
            None => !end.can_add(horizon_offset(duration)),
        },
{
    match (duration as u64).checked_add(HORIZON_MARGIN as u64) {
        Some(offset) => end.later_by(offset),
        None => {
            proof {
                lemma_minute_number_bounds();
            }
            None
        },
    }
}

/// Whether both days of a component exist.
fn component_exists(component: &DateComponent) -> (r: bool)
    ensures
        r == component.wf(),
{
    component.start.is_valid() && match component.end {
        Some(end) => end.is_valid(),
        None => true,
    }
}

/// Builds the occurrences of a record: one for each component, in order.
pub fn materialize(
    time: WallTime,
    duration: usize,
    dates: &Vec<DateComponent>,
    name: &str,
    location: &str,
    campus: &str,
) -> (r: Result<Vec<Occurrence>, RecordError>)
    ensures
        match r {
            Ok(v) => materialize_fault(time, duration, dates@) is None && v@.len() == dates@.len()
                && forall|i: int|
                0 <= i < v@.len() ==> is_occurrence_of(
                    #[trigger] v@[i],
                    dates@[i],
                    time,
                    duration,
                    name@,
                    location@,
                    campus@,
                ),
            Err(e) => materialize_fault(time, duration, dates@) == Some(e),
        },
{
    if !(time.hour < 24 && time.minute < 60) {
        return Err(RecordError::TimeOutOfRange);
    }
    let n = dates.len();
    let mut k: usize = 0;
    while k < n
        invariant
            k <= n,
            n == dates@.len(),
            time.wf(),
            forall|j: int| 0 <= j < k ==> (#[trigger] dates@[j]).wf(),
        decreases n - k,
    {
        if !component_exists(&dates[k]) {
            assert(!dates@[k as int].wf());
            return Err(RecordError::DateSequenceMalformed);
        }
        k += 1;
    }
    let mut found: Vec<Occurrence> = Vec::new();
    let mut i: usize = 0;
    while i < n
        invariant
            i <= n,
            n == dates@.len(),
            time.wf(),
            forall|j: int| 0 <= j < dates@.len() ==> (#[trigger] dates@[j]).wf(),
            found@.len() == i,
            forall|j: int| 0 <= j < i ==> has_horizon(#[trigger] dates@[j], time, duration),
            forall|j: int|
                0 <= j < i ==> is_occurrence_of(
                    #[trigger] found@[j],
                    dates@[j],
                    time,
                    duration,
                    name@,
                    location@,
                    campus@,
                ),
        decreases n - i,
    {
        let component = dates[i];
        assert(component.wf());
        let start = Timestamp { date: component.start, hour: time.hour, minute: time.minute };
        let (end_bound, horizon) = match component.end {
            None => (None, None),
            Some(end) => {
                let last = Timestamp { date: end, hour: time.hour, minute: time.minute };
                match horizon_after(last, duration) {
                    None => {
                        assert(!has_horizon(dates@[i as int], time, duration));
                        return Err(RecordError::HorizonOutOfRange);
                    },
                    Some(h) => (Some(last), Some(h)),
                }
            },
        };
        found.push(
            Occurrence {
                start,
                end_bound,
                horizon,
                duration,
                name: String::from_str(name),
                location: String::from_str(location),
                campus: String::from_str(campus),
            },
        );
        i += 1;
    }
    Ok(found)
}

} // verus!
