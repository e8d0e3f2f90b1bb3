//! Solar events, the table of their local times, and the reading of raw
//! solar data.

use crate::error::CycleError;
use crate::text::{chars_of, is_word, number, parse_number, split, split_at, views};
use crate::time::{
    clock_in_range, clock_nanos, ring_add, TimeOfDay, NANOS_PER_DAY, NANOS_PER_HALF_DAY,
    NANOS_PER_MINUTE,
};
use vstd::prelude::*;

verus! {

/// The named points of the solar day that a schedule can refer to.
#[derive(Clone, Copy, Debug, PartialEq, Eq, Structural, Hash)]
pub enum SolarEvent {
    TwilightBegin,
    Sunrise,
    SolarNoon,
    Sunset,
    TwilightEnd,
    SolarMidnight,
}

/// The solar event that a schedule's two-letter shortcut stands for.
pub open spec fn shortcut_event(shortcut: Seq<char>) -> Option<SolarEvent> {
    if shortcut == "tb"@ {
        Some(SolarEvent::TwilightBegin)
    } else if shortcut == "sr"@ {
        Some(SolarEvent::Sunrise)
    } else if shortcut == "sn"@ {
        Some(SolarEvent::SolarNoon)
    } else if shortcut == "ss"@ {
        Some(SolarEvent::Sunset)
    } else if shortcut == "te"@ {
        Some(SolarEvent::TwilightEnd)
    } else if shortcut == "sm"@ {
        Some(SolarEvent::SolarMidnight)
    } else {
        None
    }
}

/// The name under which a solar event is known.
pub open spec fn event_key(event: SolarEvent) -> Seq<char> {
    match event {
        SolarEvent::TwilightBegin => "twilight_begin"@,
        SolarEvent::Sunrise => "sunrise"@,
        SolarEvent::SolarNoon => "solar_noon"@,
        SolarEvent::Sunset => "sunset"@,
        SolarEvent::TwilightEnd => "twilight_end"@,
        SolarEvent::SolarMidnight => "solar_midnight"@,
    }
}

/// The name of a reading for the name that the source of solar data gives
/// to it: the source calls the two twilights civil twilights, and every
/// other reading by its own name.
pub open spec fn source_name(key: Seq<char>) -> Seq<char> {
    if key == "civil_twilight_begin"@ {
        "twilight_begin"@
    } else if key == "civil_twilight_end"@ {
        "twilight_end"@
    } else {
        key
    }
}

/// The name of a reading for the name that the source of solar data gives
/// to it.
pub fn reading_name<'a>(key: &'a str) -> (name: &'a str)
    ensures
        name@ == source_name(key@),
{
    let chars = chars_of(key);
    if is_word(&chars, "civil_twilight_begin") {
        "twilight_begin"
    } else if is_word(&chars, "civil_twilight_end") {
        "twilight_end"
    } else {
        key
    }
}

/// The solar event that a raw reading called `name` is about. Solar midnight
/// is never read: it is derived from solar noon.
pub open spec fn read_event(name: Seq<char>) -> Option<SolarEvent> {
    if name == "twilight_begin"@ {
        Some(SolarEvent::TwilightBegin)
    } else if name == "sunrise"@ {
        Some(SolarEvent::Sunrise)
    } else if name == "solar_noon"@ {
        Some(SolarEvent::SolarNoon)
    } else if name == "sunset"@ {
        Some(SolarEvent::Sunset)
    } else if name == "twilight_end"@ {
        Some(SolarEvent::TwilightEnd)
    } else {
        None
    }
}

impl SolarEvent {
    /// The event that the shortcut stands for, if it stands for one.
    pub fn from_shortcut(shortcut: &Vec<char>) -> (r: Option<SolarEvent>)
        ensures
            r == shortcut_event(shortcut@),
    {
        if is_word(shortcut, "tb") {
            Some(SolarEvent::TwilightBegin)
        } else if is_word(shortcut, "sr") {
            Some(SolarEvent::Sunrise)
        } else if is_word(shortcut, "sn") {
            Some(SolarEvent::SolarNoon)
        } else if is_word(shortcut, "ss") {
            Some(SolarEvent::Sunset)
        } else if is_word(shortcut, "te") {
            Some(SolarEvent::TwilightEnd)
        } else if is_word(shortcut, "sm") {
            Some(SolarEvent::SolarMidnight)
        } else {
            None
        }
    }

    /// The event that a raw reading of this name is about, if it is one of
    /// the five that are read.
    pub fn from_reading_name(name: &Vec<char>) -> (r: Option<SolarEvent>)
        ensures
            r == read_event(name@),
    {
        if is_word(name, "twilight_begin") {
            Some(SolarEvent::TwilightBegin)
        } else if is_word(name, "sunrise") {
            Some(SolarEvent::Sunrise)
        } else if is_word(name, "solar_noon") {
            Some(SolarEvent::SolarNoon)
        } else if is_word(name, "sunset") {
            Some(SolarEvent::Sunset)
        } else if is_word(name, "twilight_end") {
            Some(SolarEvent::TwilightEnd)
        } else {
            None
        }
    }

    /// The event's name.
    pub fn key(self) -> (k: &'static str)
        ensures
            k@ == event_key(self),
    {
        match self {
            SolarEvent::TwilightBegin => "twilight_begin",
            SolarEvent::Sunrise => "sunrise",
            SolarEvent::SolarNoon => "solar_noon",
            SolarEvent::Sunset => "sunset",
            SolarEvent::TwilightEnd => "twilight_end",
            SolarEvent::SolarMidnight => "solar_midnight",
        }
    }
}

/// The name of the solar event that the shortcut `sc` stands for, if it
/// stands for one.
pub fn get_sun_data_key_from_shortcut(sc: &str) -> (key: Option<&'static str>)
    ensures
        key is Some <==> shortcut_event(sc@) is Some,
        key matches Some(k) ==> k@ == event_key(shortcut_event(sc@).unwrap()),
{
    let shortcut = chars_of(sc);
    match SolarEvent::from_shortcut(&shortcut) {
        Some(event) => Some(event.key()),
        None => None,
    }
}

/// Solar midnight is there exactly when solar noon is, half a day after it
/// on the 24-hour ring.
pub open spec fn midnight_follows_noon(times: Map<SolarEvent, nat>) -> bool {
    &&& times.contains_key(SolarEvent::SolarMidnight) == times.contains_key(SolarEvent::SolarNoon)
    &&& times.contains_key(SolarEvent::SolarNoon) ==> times[SolarEvent::SolarMidnight]
        == ring_add(times[SolarEvent::SolarNoon] as int, NANOS_PER_HALF_DAY as int)
}

/// `times` with solar midnight derived from its solar noon.
pub open spec fn with_midnight(times: Map<SolarEvent, nat>) -> Map<SolarEvent, nat> {
    if times.contains_key(SolarEvent::SolarNoon) {
        times.insert(
            SolarEvent::SolarMidnight,
            ring_add(times[SolarEvent::SolarNoon] as int, NANOS_PER_HALF_DAY as int) as nat,
        )
    } else {
        times.remove(SolarEvent::SolarMidnight)
    }
}

/// The local times of day of the solar events that are known for one day.
/// Its view maps each known event to its time in nanoseconds since midnight.
#[derive(Clone, Copy, Debug)]
pub struct SolarTimeTable {
    twilight_begin: Option<TimeOfDay>,
    sunrise: Option<TimeOfDay>,
    solar_noon: Option<TimeOfDay>,
    sunset: Option<TimeOfDay>,
    twilight_end: Option<TimeOfDay>,
    solar_midnight: Option<TimeOfDay>,
}

impl View for SolarTimeTable {
    type V = Map<SolarEvent, nat>;

    closed spec fn view(&self) -> Map<SolarEvent, nat> {
        Map::new(|e: SolarEvent| self.slot(e) is Some, |e: SolarEvent| self.slot(e).unwrap()@)
    }
}

impl SolarTimeTable {
    spec fn slot(self, event: SolarEvent) -> Option<TimeOfDay> {
        match event {
            SolarEvent::TwilightBegin => self.twilight_begin,
            SolarEvent::Sunrise => self.sunrise,
            SolarEvent::SolarNoon => self.solar_noon,
            SolarEvent::Sunset => self.sunset,
            SolarEvent::TwilightEnd => self.twilight_end,
            SolarEvent::SolarMidnight => self.solar_midnight,
        }
    }

    /// Every time in the table lies within the day, and solar midnight
    /// follows solar noon.
    #[verifier::type_invariant]
    pub open spec fn wf(self) -> bool {
        &&& forall|e: SolarEvent| #[trigger] self@.contains_key(e) ==> self@[e] < NANOS_PER_DAY
        &&& midnight_follows_noon(self@)
    }

    /// The table of the five given times, each of which may be missing, with
    /// solar midnight derived from solar noon.
    pub fn new(
        twilight_begin: Option<TimeOfDay>,
        sunrise: Option<TimeOfDay>,
        solar_noon: Option<TimeOfDay>,
        sunset: Option<TimeOfDay>,
        twilight_end: Option<TimeOfDay>,
    ) -> (table: SolarTimeTable)
        ensures
            table.wf(),
            table@ == with_midnight(
                given_times(twilight_begin, sunrise, solar_noon, sunset, twilight_end),
            ),
    {
        let solar_midnight = match solar_noon {
            Some(noon) => Some(noon.plus_steps(NANOS_PER_HALF_DAY, 1)),
            None => None,
        };
        proof {
            if let Some(t) = twilight_begin {
                use_type_invariant(t);
            }
            if let Some(t) = sunrise {
                use_type_invariant(t);
            }
            if let Some(t) = solar_noon {
                use_type_invariant(t);
            }
            if let Some(t) = sunset {
                use_type_invariant(t);
            }
            if let Some(t) = twilight_end {
                use_type_invariant(t);
            }
        }
        let table = SolarTimeTable {
            twilight_begin,
            sunrise,
            solar_noon,
            sunset,
            twilight_end,
            solar_midnight,
        };
        proof {
            assert(table@ =~= with_midnight(
                given_times(twilight_begin, sunrise, solar_noon, sunset, twilight_end),
            ));
        }
        table
    }

    /// The time of `event`, if the table knows it.
    pub fn get(&self, event: SolarEvent) -> (r: Option<TimeOfDay>)
        ensures
            r is Some <==> self@.contains_key(event),
            r matches Some(t) ==> t@ == self@[event] && t.wf(),
    {
        proof {
            use_type_invariant(self);
            assert(self@.contains_key(event) <==> self.slot(event) is Some);
        }
        match event {
            SolarEvent::TwilightBegin => self.twilight_begin,
            SolarEvent::Sunrise => self.sunrise,
            SolarEvent::SolarNoon => self.solar_noon,
            SolarEvent::Sunset => self.sunset,
            SolarEvent::TwilightEnd => self.twilight_end,
            SolarEvent::SolarMidnight => self.solar_midnight,
        }
    }
}

/// The map from each of the five events that are read to its time, where one
/// is given.
pub open spec fn given_times(
    twilight_begin: Option<TimeOfDay>,
    sunrise: Option<TimeOfDay>,
    solar_noon: Option<TimeOfDay>,
    sunset: Option<TimeOfDay>,
    twilight_end: Option<TimeOfDay>,
) -> Map<SolarEvent, nat> {
    let none = Map::<SolarEvent, nat>::empty();
    let a = if let Some(t) = twilight_begin { none.insert(SolarEvent::TwilightBegin, t@) } else { none };
    let b = if let Some(t) = sunrise { a.insert(SolarEvent::Sunrise, t@) } else { a };
    let c = if let Some(t) = solar_noon { b.insert(SolarEvent::SolarNoon, t@) } else { b };
    let d = if let Some(t) = sunset { c.insert(SolarEvent::Sunset, t@) } else { c };
    if let Some(t) = twilight_end { d.insert(SolarEvent::TwilightEnd, t@) } else { d }
}

/// In every table, solar midnight is solar noon plus twelve hours, wrapped
/// into the day; it is known exactly when solar noon is.
pub proof fn lemma_solar_midnight(table: SolarTimeTable)
    requires
        table.wf(),
    ensures
        table@.contains_key(SolarEvent::SolarMidnight) <==> table@.contains_key(
            SolarEvent::SolarNoon,
        ),
        table@.contains_key(SolarEvent::SolarNoon) ==> {
            &&& table@[SolarEvent::SolarMidnight] == (table@[SolarEvent::SolarNoon]
                + NANOS_PER_HALF_DAY) % (NANOS_PER_DAY as int)
            &&& table@[SolarEvent::SolarMidnight] < NANOS_PER_DAY
        },
{
}

/// The distance of local time from UTC, as whole hours and minutes; both are
/// negative west of Greenwich.
#[derive(Clone, Copy, Debug, PartialEq, Eq, Structural, Hash)]
pub struct UtcOffset {
    pub hours: i32,
    pub minutes: i32,
}

impl UtcOffset {
    /// The offset in minutes: sixty for each hour, plus the minutes.
    pub open spec fn total_minutes(self) -> int {
        self.hours * 60 + self.minutes
    }

    /// The offset of `seconds` seconds, in whole hours and minutes; seconds
    /// beyond the last whole minute are dropped.
    pub fn from_seconds(seconds: i32) -> (offset: UtcOffset)
        ensures
            seconds >= 0 ==> offset.hours == seconds / 3600 && offset.minutes == (seconds % 3600)
                / 60,
            seconds < 0 ==> offset.hours == -((-seconds) / 3600) && offset.minutes == -(((-seconds)
                % 3600) / 60),
    {
        if seconds >= 0 {
            UtcOffset { hours: seconds / 3600, minutes: (seconds % 3600) / 60 }
        } else {
            let back: i64 = -(seconds as i64);
            UtcOffset { hours: -((back / 3600) as i32), minutes: -(((back % 3600) / 60) as i32) }
        }
    }

    /// The offset in minutes.
    pub fn in_minutes(&self) -> (m: i64)
        ensures
            m == self.total_minutes(),
    {
        self.hours as i64 * 60 + self.minutes as i64
    }
}

/// One raw reading of solar data: the name of an event and a UTC clock
/// reading such as `5:43:12 AM`.
#[derive(Clone, Debug)]
pub struct SolarReading {
    pub name: String,
    pub value: String,
}

/// Whether `marker` is one of the two meridian markers, `AM` and `PM`.
pub open spec fn is_meridian_marker(marker: Seq<char>) -> bool {
    marker == "AM"@ || marker == "PM"@
}

/// The hour on a 24-hour clock for an hour read beside a meridian marker,
/// as a 12-hour clock is read: beside `PM` an hour below twelve, zero
/// included, is twelve more; beside `AM` the hour twelve is the hour zero
/// after midnight. Every other hour stays as it is read: twelve and above
/// beside `PM`, and all but twelve beside `AM`.
pub open spec fn hour_of_day(hour: int, marker: Seq<char>) -> int {
    if marker == "PM"@ && hour < 12 {
        hour + 12
    } else if marker == "AM"@ && hour == 12 {
        0
    } else {
        hour
    }
}

/// The time of day, in nanoseconds since midnight, that a raw clock reading
/// of the form `H:MM:SS AM` or `H:MM:SS PM` states. One space parts the
/// clock from the meridian marker, and two colons part hour, minute and
/// second, which must be numbers that a 24-hour clock can show. A reading
/// of any other form states no time.
pub open spec fn reading_nanos(value: Seq<char>) -> Option<nat> {
    let parts = split(value, ' ');
    if parts.len() != 2 || !is_meridian_marker(parts[1]) {
        None
    } else {
        let clock = split(parts[0], ':');
        if clock.len() != 3 {
            None
        } else {
            match (number(clock[0]), number(clock[1]), number(clock[2])) {
                (Some(h), Some(m), Some(s)) => if clock_in_range(h as int, m as int, s as int) {
                    Some(clock_nanos(hour_of_day(h as int, parts[1]), m as int, s as int) as nat)
                } else {
                    None
                },
                _ => None,
            }
        }
    }
}

/// The local time of day that a raw UTC clock reading states, for a place
/// whose clocks are `offset_minutes` ahead of UTC.
pub open spec fn local_reading(value: Seq<char>, offset_minutes: int) -> Option<nat> {
    match reading_nanos(value) {
        Some(utc) => Some(
            ring_add(utc as int, offset_minutes * (NANOS_PER_MINUTE as int)) as nat,
        ),
        None => None,
    }
}

/// Reads a raw UTC clock reading as a local time of day.
pub fn parse_reading(value: &str, offset: UtcOffset) -> (r: Option<TimeOfDay>)
    ensures
        r is Some <==> local_reading(value@, offset.total_minutes()) is Some,
        r matches Some(t) ==> t@ == local_reading(value@, offset.total_minutes()).unwrap()
            && t.wf(),
{
    let chars = chars_of(value);
    let parts = split_at(&chars, ' ');
    if parts.len() != 2 {
        return None;
    }
    assert(views(parts@)[0] == parts@[0]@ && views(parts@)[1] == parts@[1]@);
    let before_noon = is_word(&parts[1], "AM");
    let after_noon = is_word(&parts[1], "PM");
    if !before_noon && !after_noon {
        return None;
    }
    let clock = split_at(&parts[0], ':');
    if clock.len() != 3 {
        return None;
    }
    assert(views(clock@)[0] == clock@[0]@ && views(clock@)[1] == clock@[1]@ && views(clock@)[2]
        == clock@[2]@);
    let hour = parse_number(&clock[0], 23);
    let minute = parse_number(&clock[1], 59);
    let second = parse_number(&clock[2], 59);
    match (hour, minute, second) {
        (Some(h), Some(m), Some(s)) => {
            let h24: u32 = if after_noon && h < 12 {
                h + 12
            } else if before_noon && h == 12 {
                0
            } else {
                h
            };
            match TimeOfDay::from_hms(h24, m, s) {
                Some(utc) => Some(utc.plus_minutes(offset.in_minutes())),
                None => None,
            }
        },
        _ => None,
    }
}

/// The times that the readings give to the five events that are read, the
/// later of two readings of one event replacing the earlier. Readings under
/// any other name are passed over unread. There is no result if a reading
/// of one of the five events states no time.
pub open spec fn read_times(readings: Seq<SolarReading>, offset_minutes: int) -> Option<
    Map<SolarEvent, nat>,
>
    decreases readings.len(),
{
    if readings.len() == 0 {
        Some(Map::empty())
    } else {
        match read_times(readings.drop_last(), offset_minutes) {
            None => None,
            Some(times) => match read_event(readings.last().name@) {
                None => Some(times),
                Some(event) => match local_reading(readings.last().value@, offset_minutes) {
                    None => None,
                    Some(t) => Some(times.insert(event, t)),
                },
            },
        }
    }
}

/// The solar times that the readings yield: what they give to the five
/// events that are read, and solar midnight derived from solar noon. There
/// is no result if a reading cannot be read or solar noon is missing.
pub open spec fn solar_table(readings: Seq<SolarReading>, offset_minutes: int) -> Option<
    Map<SolarEvent, nat>,
> {
    match read_times(readings, offset_minutes) {
        Some(times) => if times.contains_key(SolarEvent::SolarNoon) {
            Some(with_midnight(times))
        } else {
            None
        },
        None => None,
    }
}

/// Builds the table of local solar times from raw UTC readings and the
/// local offset from UTC. Fails with `SolarDataUnavailable` if a reading of
/// one of the five events cannot be read, or if solar noon is not among
/// them.
pub fn get_sun_data(readings: &Vec<SolarReading>, offset: UtcOffset) -> (r: Result<
    SolarTimeTable,
    CycleError,
>)
    ensures
        match solar_table(readings@, offset.total_minutes()) {
            Some(times) => r matches Ok(table) && table@ == times && table.wf(),
            None => r == Err::<SolarTimeTable, CycleError>(CycleError::SolarDataUnavailable),
        },
{
    let mut twilight_begin: Option<TimeOfDay> = None;
    let mut sunrise: Option<TimeOfDay> = None;
    let mut solar_noon: Option<TimeOfDay> = None;
    let mut sunset: Option<TimeOfDay> = None;
    let mut twilight_end: Option<TimeOfDay> = None;
    let ghost minutes = offset.total_minutes();
    let mut i: usize = 0;
    assert(readings@.take(0) == Seq::<SolarReading>::empty());
    assert(given_times(twilight_begin, sunrise, solar_noon, sunset, twilight_end)
        == Map::<SolarEvent, nat>::empty());
    while i < readings.len()
        invariant
            i <= readings.len(),
            minutes == offset.total_minutes(),
            read_times(readings@.take(i as int), minutes) == Some(
                given_times(twilight_begin, sunrise, solar_noon, sunset, twilight_end),
            ),
        decreases readings.len() - i,
    {
        let ghost before = given_times(twilight_begin, sunrise, solar_noon, sunset, twilight_end);
        proof {
            assert(readings@.take(i + 1).drop_last() == readings@.take(i as int));
            assert(readings@.take(i + 1).last() == readings@[i as int]);
        }
        let name = chars_of(readings[i].name.as_str());
        match SolarEvent::from_reading_name(&name) {
            None => {},
            Some(event) => {
                match parse_reading(readings[i].value.as_str(), offset) {
                    None => {
                        proof {
                            lemma_read_times_fails(readings@, i + 1, minutes);
                        }
                        return Err(CycleError::SolarDataUnavailable);
                    },
                    Some(t) => {
                        match event {
                            SolarEvent::TwilightBegin => {
                                twilight_begin = Some(t);
                            },
                            SolarEvent::Sunrise => {
                                sunrise = Some(t);
                            },
                            SolarEvent::SolarNoon => {
                                solar_noon = Some(t);
                            },
                            SolarEvent::Sunset => {
                                sunset = Some(t);
                            },
                            _ => {
                                twilight_end = Some(t);
                            },
                        }
                        proof {
                            assert(given_times(
                                twilight_begin,
                                sunrise,
                                solar_noon,
                                sunset,
                                twilight_end,
                            ) =~= before.insert(event, t@));
                        }
                    },
                }
            },
        }
        i = i + 1;
    }
    proof {
        assert(readings@.take(readings.len() as int) == readings@);
        let times = given_times(twilight_begin, sunrise, solar_noon, sunset, twilight_end);
        assert(times.contains_key(SolarEvent::SolarNoon) <==> solar_noon is Some);
    }
    if solar_noon.is_none() {
        return Err(CycleError::SolarDataUnavailable);
    }
    Ok(SolarTimeTable::new(twilight_begin, sunrise, solar_noon, sunset, twilight_end))
}

/// Once the readings up to some point yield no times, the whole list
/// yields none.
proof fn lemma_read_times_fails(readings: Seq<SolarReading>, n: int, offset_minutes: int)
    requires
        0 <= n <= readings.len(),
        read_times(readings.take(n), offset_minutes) is None,
    ensures
        read_times(readings, offset_minutes) is None,
    decreases readings.len() - n,
{
    if n < readings.len() {
        assert(readings.take(n + 1).drop_last() == readings.take(n));
        lemma_read_times_fails(readings, n + 1, offset_minutes);
    } else {
        assert(readings.take(n) == readings);
    }
}

/// The times of the table at hand, if there is one.
pub open spec fn known_times(table: Option<&SolarTimeTable>) -> Option<Map<SolarEvent, nat>> {
    match table {
        Some(known) => Some(known@),
        None => None,
    }
}

} // verus!
