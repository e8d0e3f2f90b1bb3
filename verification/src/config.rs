//! From schedule text to cycle in one call, with and without solar times.

use crate::cycle::{active_index, Cycle, PointView};
use crate::error::CycleError;
use crate::layout::{
    are_whole_seconds, build, built_cycle, lemma_first_point_is_active_at_its_time,
    lemma_first_point_is_earliest, lemma_whole_second_steps_are_positive, resolved_times,
    step_after,
};
use crate::order::time_order;
use crate::schedule::{
    is_sound_entry, lemma_lines_entries_are_sound, parse_schedule, resolved_nanos,
    schedule_entries,
};
use crate::solar::{SolarEvent, SolarTimeTable};
use crate::text::{split, without_blanks};
use crate::time::{NANOS_PER_DAY, NANOS_PER_SECOND};
use vstd::prelude::*;

verus! {

/// The cycle that a schedule text makes, given the solar times at hand: the
/// text's entries, built into a cycle. A fault of the text comes before a
/// fault of the cycle.
pub open spec fn text_cycle(text: Seq<char>, table: Option<Map<SolarEvent, nat>>) -> Result<
    Seq<PointView>,
    CycleError,
> {
    match schedule_entries(text) {
        Err(e) => Err(e),
        Ok(entries) => built_cycle(entries, table),
    }
}

/// Builds the cycle of a schedule text with solar times at hand: symbolic
/// anchors take the time that `sun_data` gives to their event, and their
/// own fallback only for an event that `sun_data` does not know.
pub fn parse_cycle_online(text: &str, sun_data: &SolarTimeTable) -> (r: Result<Cycle, CycleError>)
    ensures
        match text_cycle(text@, Some(sun_data@)) {
            Ok(points) => r matches Ok(cycle) && cycle@ == points,
            Err(e) => r == Err::<Cycle, CycleError>(e),
        },
{
    match parse_schedule(text) {
        Err(e) => Err(e),
        Ok(entries) => build(&entries, Some(sun_data)),
    }
}

/// Builds the cycle of a schedule text without solar times: every symbolic
/// anchor takes its fallback.
pub fn parse_cycle_offline(text: &str) -> (r: Result<Cycle, CycleError>)
    ensures
        match text_cycle(text@, None) {
            Ok(points) => r matches Ok(cycle) && cycle@ == points,
            Err(e) => r == Err::<Cycle, CycleError>(e),
        },
{
    match parse_schedule(text) {
        Err(e) => Err(e),
        Ok(entries) => build(&entries, None),
    }
}

/// Whether the solar times at hand, if there are any, are whole seconds of
/// the day.
pub open spec fn has_whole_seconds(table: Option<Map<SolarEvent, nat>>) -> bool {
    table matches Some(times) ==> forall|event: SolarEvent| #[trigger]
        times.contains_key(event) ==> times[event] < NANOS_PER_DAY && times[event] % (
        NANOS_PER_SECOND as nat) == 0
}

/// In the cycle of a schedule text, every step between the images of an
/// entry is positive, the first point is the first image of the entry with
/// the earliest time, and, where that entry has no more images than there
/// are entries, the first point is the active one at its own time.
pub proof fn lemma_first_point_of_text_cycle(text: Seq<char>, table: Option<Map<SolarEvent, nat>>)
    requires
        text_cycle(text, table) is Ok,
        schedule_entries(text).unwrap().len() <= usize::MAX,
        has_whole_seconds(table),
    ensures
        ({
            let entries = schedule_entries(text).unwrap();
            let times = resolved_times(entries, table);
            let order = time_order(times, entries.len());
            let points = text_cycle(text, table).unwrap();
            &&& forall|i: int| 0 <= i < entries.len() ==> #[trigger] step_after(times, order, i) > 0
            &&& points.len() > 0
            &&& points[0].time == times[order[0] as int]
            &&& points[0].path == entries[order[0] as int].paths[0]
            &&& forall|i: int| 0 <= i < entries.len() ==> points[0].time <= #[trigger] times[i]
            &&& entries[order[0] as int].paths.len() <= entries.len() ==> active_index(
                points,
                points[0].time,
            ) == 0
        }),
{
    let entries = schedule_entries(text).unwrap();
    let n = entries.len();
    let times = resolved_times(entries, table);
    let order = time_order(times, n);
    lemma_lines_entries_are_sound(split(without_blanks(text), '\n'));
    assert forall|i: int| 0 <= i < n implies (#[trigger] entries[i]).paths.len() > 0 by {
        assert(is_sound_entry(entries[i]));
    }
    assert forall|i: int| 0 <= i < n implies resolved_nanos(#[trigger] entries[i].anchor, table)
        < NANOS_PER_DAY && resolved_nanos(entries[i].anchor, table) % (NANOS_PER_SECOND as nat)
        == 0 by {
        assert(is_sound_entry(entries[i]));
    }
    assert(are_whole_seconds(times, n));
    assert forall|i: int| 0 <= i < n implies #[trigger] step_after(times, order, i) > 0 by {
        lemma_whole_second_steps_are_positive(times, n, i);
    }
    lemma_first_point_is_earliest(entries, table);
    assert forall|i: int| 0 <= i < n implies text_cycle(text, table).unwrap()[0].time
        <= #[trigger] times[i] by {
        assert(times[i] == resolved_nanos(entries[i].anchor, table));
    }
    if entries[order[0] as int].paths.len() <= n {
        assert(step_after(times, order, 0) > 0);
        lemma_first_point_is_active_at_its_time(entries, table);
    }
}

} // verus!
