//! Building a cycle: laying the images of each entry out between its time
//! and the time of the entry that comes next.

use crate::cycle::{
    active_index, first_later, is_ascending, point_views, Cycle, InterpolatedPoint, PointView,
};
use crate::error::CycleError;
use crate::order::{
    is_stable_order, lemma_place_of, lemma_time_order_sorts, lists, order_by_time, time_order,
};
use crate::schedule::{entry_views, resolved_nanos, EntryView, ScheduleEntry};
use crate::solar::{known_times, SolarEvent, SolarTimeTable};
use crate::text::texts;
use crate::time::{ring_add, TimeOfDay, NANOS_PER_DAY, NANOS_PER_SECOND};
use vstd::prelude::*;

verus! {

/// The time of day that each entry resolves to, in the order of the entries.
pub open spec fn resolved_times(entries: Seq<EntryView>, table: Option<Map<SolarEvent, nat>>) -> Seq<
    nat,
> {
    Seq::new(entries.len(), |i: int| resolved_nanos(entries[i].anchor, table))
}

/// The span from the entry at place `i` of `order` to the one after it; for
/// the last entry, the span over midnight back to the first.
pub open spec fn gap_after(times: Seq<nat>, order: Seq<usize>, i: int) -> int {
    if i + 1 < order.len() {
        times[order[i + 1] as int] - times[order[i] as int]
    } else {
        times[order[0] as int] - times[order[i] as int] + NANOS_PER_DAY
    }
}

/// The step between the images of the entry at place `i`: the span to the
/// next entry, divided by the number of entries.
pub open spec fn step_after(times: Seq<nat>, order: Seq<usize>, i: int) -> int {
    gap_after(times, order, i) / (order.len() as int)
}

/// The points of one entry: its paths in order, the first at `start` and
/// each further one a `step` later on the 24-hour ring.
pub open spec fn entry_points(paths: Seq<Seq<char>>, start: nat, step: int) -> Seq<PointView> {
    Seq::new(
        paths.len(),
        |j: int| PointView { time: ring_add(start as int, step * j) as nat, path: paths[j] },
    )
}

/// The points of the first `n` entries in `order`, entry after entry.
pub open spec fn laid_out(
    entries: Seq<EntryView>,
    times: Seq<nat>,
    order: Seq<usize>,
    n: nat,
) -> Seq<PointView>
    decreases n,
{
    if n == 0 {
        Seq::empty()
    } else {
        let i = n - 1;
        laid_out(entries, times, order, i as nat) + entry_points(
            entries[order[i] as int].paths,
            times[order[i] as int],
            step_after(times, order, i),
        )
    }
}

/// Whether two of the first `n` times are the same.
pub open spec fn has_equal_times(times: Seq<nat>, n: nat) -> bool {
    exists|a: int, b: int| 0 <= a < n && 0 <= b < n && a != b && times[a] == times[b]
}

/// Whether some entry is not followed by a positive span.
pub open spec fn has_empty_span(times: Seq<nat>, order: Seq<usize>) -> bool {
    exists|i: int| 0 <= i < order.len() && #[trigger] gap_after(times, order, i) <= 0
}

/// The cycle that the entries make, given the solar times at hand. The
/// entries are ordered by the time they resolve to. The span from each to
/// the next is divided by the number of entries, and the entry's images
/// are laid out from its time on, one such step apart. An entry with more
/// images than there are entries therefore runs past the next entry's
/// time, and the points of the last entry may run past midnight.
pub open spec fn built_cycle(entries: Seq<EntryView>, table: Option<Map<SolarEvent, nat>>) -> Result<
    Seq<PointView>,
    CycleError,
> {
    let times = resolved_times(entries, table);
    let order = time_order(times, entries.len());
    if entries.len() == 0 {
        Err(CycleError::EmptySchedule)
    } else if has_empty_span(times, order) {
        Err(CycleError::DegenerateCycle)
    } else {
        Ok(laid_out(entries, times, order, entries.len()))
    }
}

/// Builds the cycle of the entries, given the solar times at hand, if any.
/// Fails with `EmptySchedule` if there is no entry and with
/// `DegenerateCycle` if two entries resolve to the same time of day.
pub fn build(entries: &Vec<ScheduleEntry>, table: Option<&SolarTimeTable>) -> (r: Result<
    Cycle,
    CycleError,
>)
    ensures
        match built_cycle(entry_views(entries@), known_times(table)) {
            Ok(points) => r matches Ok(cycle) && cycle@ == points,
            Err(e) => r == Err::<Cycle, CycleError>(e),
        },
        r is Ok <==> entries@.len() > 0 && !has_equal_times(
            resolved_times(entry_views(entries@), known_times(table)),
            entries@.len(),
        ),
        r matches Ok(cycle) ==> cycle@.len() == path_total(entry_views(entries@)),
{
    let n: usize = entries.len();
    if n == 0 {
        return Err(CycleError::EmptySchedule);
    }
    let ghost said = entry_views(entries@);
    let ghost times = resolved_times(said, known_times(table));
    let mut resolved: Vec<TimeOfDay> = Vec::new();
    let mut i: usize = 0;
    while i < n
        invariant
            i <= n,
            n == entries@.len(),
            said == entry_views(entries@),
            times == resolved_times(said, known_times(table)),
            resolved@.len() == i,
            forall|q: int| 0 <= q < i ==> (#[trigger] resolved@[q])@ == times[q],
            forall|q: int| 0 <= q < i ==> times[q] < NANOS_PER_DAY,
        decreases n - i,
    {
        resolved.push(entries[i].anchor().resolved_time(table));
        i = i + 1;
    }
    assert(resolved@.map_values(|t: TimeOfDay| t@) == times);
    proof {
        lemma_empty_span_means_equal_times(times, n as nat);
        if built_cycle(said, known_times(table)) is Ok {
            lemma_built_cycle_len(said, known_times(table));
        }
    }
    let order = order_by_time(&resolved);
    let mut points: Vec<InterpolatedPoint> = Vec::new();
    let mut i: usize = 0;
    assert(point_views(points@) == laid_out(said, times, order@, 0));
    while i < n
        invariant
            i <= n,
            n == entries@.len(),
            n > 0,
            said == entry_views(entries@),
            times == resolved_times(said, known_times(table)),
            resolved@.len() == n,
            forall|q: int| 0 <= q < n ==> (#[trigger] resolved@[q])@ == times[q],
            order@ == time_order(times, n as nat),
            order@.len() == n,
            forall|q: int| 0 <= q < n ==> order@[q] < n,
            forall|q: int| 0 <= q < i ==> #[trigger] gap_after(times, order@, q) > 0,
            point_views(points@) == laid_out(said, times, order@, i as nat),
            i > 0 ==> points@.len() > 0,
            has_empty_span(times, order@) <==> has_equal_times(times, n as nat),
        decreases n - i,
    {
        let at: usize = order[i];
        let start: TimeOfDay = resolved[at];
        let this: u64 = start.nanos();
        let gap: u64 = if i + 1 < n {
            let next: u64 = resolved[order[i + 1]].nanos();
            if next <= this {
                assert(gap_after(times, order@, i as int) <= 0);
                return Err(CycleError::DegenerateCycle);
            }
            next - this
        } else {
            resolved[order[0]].nanos() + NANOS_PER_DAY - this
        };
        assert(gap == gap_after(times, order@, i as int));
        let step: u64 = gap / (n as u64);
        assert(step == step_after(times, order@, i as int));
        let paths = entries[at].paths();
        let ghost before = point_views(points@);
        let ghost whole = entry_points(said[at as int].paths, times[at as int], step as int);
        let mut j: usize = 0;
        assert(whole.take(0) == Seq::<PointView>::empty());
        while j < paths.len()
            invariant
                j <= paths.len(),
                at < said.len() == times.len(),
                texts(paths@) == said[at as int].paths,
                start@ == times[at as int],
                whole == entry_points(said[at as int].paths, times[at as int], step as int),
                point_views(points@) == before + whole.take(j as int),
                points@.len() >= j,
            decreases paths.len() - j,
        {
            let point = InterpolatedPoint::new(start.plus_steps(step, j), paths[j].clone());
            proof {
                assert(texts(paths@)[j as int] == paths@[j as int]@);
                assert(point@ == whole[j as int]);
                assert(point_views(points@.push(point)) == point_views(points@).push(point@));
                assert(whole.take(j + 1) == whole.take(j as int).push(whole[j as int]));
            }
            points.push(point);
            j = j + 1;
        }
        proof {
            assert(whole.take(paths.len() as int) == whole);
        }
        i = i + 1;
    }
    assert(!has_empty_span(times, order@));
    match Cycle::new(points) {
        Some(cycle) => Ok(cycle),
        None => Err(CycleError::EmptySchedule),
    }
}

/// The number of paths of all entries together.
pub open spec fn path_total(entries: Seq<EntryView>) -> nat
    decreases entries.len(),
{
    if entries.len() == 0 {
        0
    } else {
        path_total(entries.drop_last()) + entries.last().paths.len()
    }
}

/// The number of paths of the entries that `order` lists.
pub open spec fn listed_total(entries: Seq<EntryView>, order: Seq<usize>) -> nat
    decreases order.len(),
{
    if order.len() == 0 {
        0
    } else {
        listed_total(entries, order.drop_last()) + entries[order.last() as int].paths.len()
    }
}

/// Listing one more entry, at whatever place, adds its paths to the total.
pub proof fn lemma_listed_total_insert(entries: Seq<EntryView>, order: Seq<usize>, p: int, k: usize)
    requires
        0 <= p <= order.len(),
    ensures
        listed_total(entries, order.insert(p, k)) == listed_total(entries, order)
            + entries[k as int].paths.len(),
    decreases order.len() - p,
{
    let longer = order.insert(p, k);
    if p == order.len() {
        assert(longer.drop_last() == order);
    } else {
        assert(longer.drop_last() == order.drop_last().insert(p, k));
        lemma_listed_total_insert(entries, order.drop_last(), p, k);
    }
}

/// The entries in order of time have as many paths as the entries have.
pub proof fn lemma_listed_total_of_order(entries: Seq<EntryView>, times: Seq<nat>, n: nat)
    requires
        n <= entries.len(),
        n <= usize::MAX,
    ensures
        listed_total(entries, time_order(times, n)) == path_total(entries.take(n as int)),
    decreases n,
{
    if n > 0 {
        let m = (n - 1) as nat;
        lemma_listed_total_of_order(entries, times, m);
        let p = lemma_place_of(time_order(times, m), times, m as usize);
        lemma_listed_total_insert(entries, time_order(times, m), p, m as usize);
        assert(entries.take(n as int).drop_last() == entries.take(m as int));
    }
}

/// Laying out the first `n` entries of an order yields one point for each
/// of their paths.
pub proof fn lemma_laid_out_len(
    entries: Seq<EntryView>,
    times: Seq<nat>,
    order: Seq<usize>,
    n: nat,
)
    requires
        n <= order.len(),
    ensures
        laid_out(entries, times, order, n).len() == listed_total(entries, order.take(n as int)),
    decreases n,
{
    if n > 0 {
        lemma_laid_out_len(entries, times, order, (n - 1) as nat);
        assert(order.take(n as int).drop_last() == order.take(n - 1));
    }
}

/// A cycle has as many points as its entries have paths.
pub proof fn lemma_built_cycle_len(entries: Seq<EntryView>, table: Option<Map<SolarEvent, nat>>)
    requires
        entries.len() <= usize::MAX,
        built_cycle(entries, table) is Ok,
    ensures
        built_cycle(entries, table).unwrap().len() == path_total(entries),
{
    let times = resolved_times(entries, table);
    let n = entries.len();
    let order = time_order(times, n);
    lemma_time_order_sorts(times, n);
    lemma_laid_out_len(entries, times, order, n);
    lemma_listed_total_of_order(entries, times, n);
    assert(order.take(n as int) == order);
    assert(entries.take(n as int) == entries);
}

/// An empty span arises exactly where two entries resolve to the same time
/// of day.
pub proof fn lemma_empty_span_means_equal_times(times: Seq<nat>, n: nat)
    requires
        0 < n <= usize::MAX,
        n <= times.len(),
        forall|i: int| 0 <= i < n ==> times[i] < NANOS_PER_DAY,
    ensures
        has_empty_span(times, time_order(times, n)) <==> has_equal_times(times, n),
{
    let order = time_order(times, n);
    lemma_time_order_sorts(times, n);
    if has_empty_span(times, order) {
        let i = choose|i: int| 0 <= i < order.len() && #[trigger] gap_after(times, order, i) <= 0;
        assert(times[order[0] as int] >= 0 && times[order[i] as int] < NANOS_PER_DAY);
        assert(i + 1 < n);
        let a = order[i] as int;
        let b = order[i + 1] as int;
        assert(a != b && times[a] == times[b]);
    }
    if has_equal_times(times, n) {
        let (a, b) = choose|a: int, b: int|
            0 <= a < n && 0 <= b < n && a != b && times[a] == times[b];
        assert(lists(order, a) && lists(order, b));
        let qa = choose|q: int| 0 <= q < order.len() && #[trigger] order[q] == a;
        let qb = choose|q: int| 0 <= q < order.len() && #[trigger] order[q] == b;
        let first = if qa < qb {
            qa
        } else {
            qb
        };
        let second = if qa < qb {
            qb
        } else {
            qa
        };
        assert(first < second);
        assert(times[order[first] as int] == times[order[second] as int]);
        if first + 1 < second {
            assert(times[order[first] as int] <= times[order[first + 1] as int]);
            assert(times[order[first + 1] as int] <= times[order[second] as int]);
        }
        assert(gap_after(times, order, first) <= 0);
    }
}

/// Whether the images of the entry at place `i` of `order` stay within the
/// entry's own span: the last of them is not later than the next entry and,
/// for the last entry, not past the end of the day.
pub open spec fn stays_in_span(
    entries: Seq<EntryView>,
    times: Seq<nat>,
    order: Seq<usize>,
    i: int,
) -> bool {
    let reach = times[order[i] as int] + step_after(times, order, i) * (
    entries[order[i] as int].paths.len() - 1);
    if i + 1 < order.len() {
        reach <= times[order[i + 1] as int]
    } else {
        reach < NANOS_PER_DAY
    }
}

/// Whether every entry's images stay within the entry's own span.
pub open spec fn keeps_spans(entries: Seq<EntryView>, table: Option<Map<SolarEvent, nat>>) -> bool {
    let times = resolved_times(entries, table);
    let order = time_order(times, entries.len());
    forall|i: int| 0 <= i < entries.len() ==> stays_in_span(entries, times, order, i)
}

/// An entry that is not the last and has no more images than there are
/// entries keeps its images within its own span.
pub proof fn lemma_short_entry_stays_in_span(
    entries: Seq<EntryView>,
    times: Seq<nat>,
    order: Seq<usize>,
    i: int,
)
    requires
        0 <= i,
        i + 1 < order.len(),
        0 < entries[order[i] as int].paths.len() <= order.len(),
        gap_after(times, order, i) > 0,
    ensures
        stays_in_span(entries, times, order, i),
{
    let gap = gap_after(times, order, i);
    let count = order.len() as int;
    let step = step_after(times, order, i);
    let images = entries[order[i] as int].paths.len() as int;
    vstd::arithmetic::div_mod::lemma_fundamental_div_mod(gap, count);
    vstd::arithmetic::div_mod::lemma_div_pos_is_pos(gap, count);
    assert(step * (images - 1) <= gap) by (nonlinear_arith)
        requires
            0 <= step,
            0 < images <= count,
            gap == count * step + gap % count,
            0 <= gap % count,
    ;
}

/// Where every entry's images stay within its span, the points laid out for
/// the first `n` entries are in ascending order and none of them is later
/// than the entry that comes next.
proof fn lemma_laid_out_ascends(
    entries: Seq<EntryView>,
    times: Seq<nat>,
    order: Seq<usize>,
    n: nat,
)
    requires
        n <= order.len(),
        is_stable_order(times, order, order.len()),
        forall|i: int| 0 <= i < order.len() ==> times[i] < NANOS_PER_DAY,
        forall|i: int| 0 <= i < order.len() ==> #[trigger] gap_after(times, order, i) > 0,
        forall|i: int| 0 <= i < order.len() ==> stays_in_span(entries, times, order, i),
    ensures
        is_ascending(laid_out(entries, times, order, n)),
        forall|q: int|
            0 <= q < laid_out(entries, times, order, n).len() ==> (#[trigger] laid_out(
                entries,
                times,
                order,
                n,
            )[q]).time <= (if n < order.len() {
                times[order[n as int] as int] as int
            } else {
                NANOS_PER_DAY - 1
            }),
    decreases n,
{
    if n > 0 {
        let i = (n - 1) as int;
        lemma_laid_out_ascends(entries, times, order, i as nat);
        let earlier = laid_out(entries, times, order, i as nat);
        let start = times[order[i] as int];
        let step = step_after(times, order, i);
        let paths = entries[order[i] as int].paths;
        let fresh = entry_points(paths, start, step);
        let all = laid_out(entries, times, order, n);
        assert(all == earlier + fresh);
        assert(gap_after(times, order, i) > 0);
        assert(step >= 0) by {
            vstd::arithmetic::div_mod::lemma_div_pos_is_pos(
                gap_after(times, order, i),
                order.len() as int,
            );
        }
        assert(stays_in_span(entries, times, order, i));
        let ceiling = if n < order.len() {
            times[order[n as int] as int] as int
        } else {
            NANOS_PER_DAY - 1
        };
        assert(start <= ceiling);
        assert forall|j: int| 0 <= j < fresh.len() implies start <= (#[trigger] fresh[j]).time
            <= ceiling && fresh[j].time == start + step * j by {
            assert(0 <= step * j <= step * (paths.len() - 1)) by (nonlinear_arith)
                requires
                    0 <= step,
                    0 <= j <= paths.len() - 1,
            ;
        }
        assert forall|a: int, b: int| 0 <= a <= b < fresh.len() implies fresh[a].time
            <= fresh[b].time by {
            assert(step * a <= step * b) by (nonlinear_arith)
                requires
                    0 <= step,
                    a <= b,
            ;
        }
        assert forall|a: int, b: int| 0 <= a <= b < all.len() implies all[a].time
            <= all[b].time by {
            if b < earlier.len() {
                assert(all[a] == earlier[a] && all[b] == earlier[b]);
            } else if a < earlier.len() {
                assert(all[a] == earlier[a] && all[b] == fresh[b - earlier.len()]);
            } else {
                assert(all[a] == fresh[a - earlier.len()] && all[b] == fresh[b - earlier.len()]);
            }
        }
        assert forall|q: int| 0 <= q < all.len() implies (#[trigger] all[q]).time <= ceiling by {
            if q < earlier.len() {
                assert(all[q] == earlier[q]);
            } else {
                assert(all[q] == fresh[q - earlier.len()]);
            }
        }
    }
}

/// Where every entry's images stay within the entry's own span, the points
/// of the cycle are in ascending order of time.
pub proof fn lemma_built_cycle_ascends(entries: Seq<EntryView>, table: Option<Map<SolarEvent, nat>>)
    requires
        entries.len() <= usize::MAX,
        forall|i: int|
            0 <= i < entries.len() ==> resolved_nanos(#[trigger] entries[i].anchor, table)
                < NANOS_PER_DAY,
        built_cycle(entries, table) is Ok,
        keeps_spans(entries, table),
    ensures
        is_ascending(built_cycle(entries, table).unwrap()),
{
    let times = resolved_times(entries, table);
    let n = entries.len();
    let order = time_order(times, n);
    lemma_time_order_sorts(times, n);
    assert forall|i: int| 0 <= i < order.len() implies #[trigger] gap_after(times, order, i)
        > 0 by {
        assert(!has_empty_span(times, order));
    }
    lemma_laid_out_ascends(entries, times, order, n);
}

/// Laying out more entries only adds points behind those that are there.
pub proof fn lemma_laid_out_grows(
    entries: Seq<EntryView>,
    times: Seq<nat>,
    order: Seq<usize>,
    m: nat,
    n: nat,
)
    requires
        m <= n,
    ensures
        laid_out(entries, times, order, m).len() <= laid_out(entries, times, order, n).len(),
        forall|q: int|
            0 <= q < laid_out(entries, times, order, m).len() ==> laid_out(
                entries,
                times,
                order,
                n,
            )[q] == laid_out(entries, times, order, m)[q],
    decreases n - m,
{
    if m < n {
        lemma_laid_out_grows(entries, times, order, m, (n - 1) as nat);
    }
}

/// The first point of a cycle is the first image of the entry with the
/// earliest time, at that time.
pub proof fn lemma_first_point_is_earliest(
    entries: Seq<EntryView>,
    table: Option<Map<SolarEvent, nat>>,
)
    requires
        entries.len() <= usize::MAX,
        forall|i: int| 0 <= i < entries.len() ==> (#[trigger] entries[i]).paths.len() > 0,
        forall|i: int|
            0 <= i < entries.len() ==> resolved_nanos(#[trigger] entries[i].anchor, table)
                < NANOS_PER_DAY,
        built_cycle(entries, table) is Ok,
    ensures
        built_cycle(entries, table).unwrap().len() > 0,
        built_cycle(entries, table).unwrap()[0] == (PointView {
            time: resolved_times(entries, table)[time_order(
                resolved_times(entries, table),
                entries.len(),
            )[0] as int],
            path: entries[time_order(resolved_times(entries, table), entries.len())[0] as int].paths[0],
        }),
        forall|i: int|
            0 <= i < entries.len() ==> built_cycle(entries, table).unwrap()[0].time
                <= resolved_nanos(#[trigger] entries[i].anchor, table),
{
    let times = resolved_times(entries, table);
    let n = entries.len();
    let order = time_order(times, n);
    lemma_time_order_sorts(times, n);
    lemma_laid_out_grows(entries, times, order, 1, n);
    let first = order[0] as int;
    let head = entry_points(entries[first].paths, times[first], step_after(times, order, 0));
    assert(laid_out(entries, times, order, 0) == Seq::<PointView>::empty());
    assert(laid_out(entries, times, order, 1) == laid_out(entries, times, order, 0) + head);
    assert(laid_out(entries, times, order, 1)[0] == head[0]);
    assert(step_after(times, order, 0) * 0 == 0);
    assert(times[first] == resolved_nanos(entries[first].anchor, table));
    assert forall|i: int| 0 <= i < n implies times[first] <= resolved_nanos(
        #[trigger] entries[i].anchor,
        table,
    ) by {
        assert(lists(order, i));
        let q = choose|q: int| 0 <= q < order.len() && #[trigger] order[q] == i;
        assert(times[order[0] as int] <= times[order[q] as int]);
        assert(times[i] == resolved_nanos(entries[i].anchor, table));
    }
}

/// At the time of its first point, the first point of a cycle is the
/// active one, provided that the step of the earliest entry is positive
/// and that this entry has no more images than there are entries.
pub proof fn lemma_first_point_is_active_at_its_time(
    entries: Seq<EntryView>,
    table: Option<Map<SolarEvent, nat>>,
)
    requires
        entries.len() <= usize::MAX,
        forall|i: int| 0 <= i < entries.len() ==> (#[trigger] entries[i]).paths.len() > 0,
        forall|i: int|
            0 <= i < entries.len() ==> resolved_nanos(#[trigger] entries[i].anchor, table)
                < NANOS_PER_DAY,
        built_cycle(entries, table) is Ok,
        step_after(
            resolved_times(entries, table),
            time_order(resolved_times(entries, table), entries.len()),
            0,
        ) > 0,
        entries[time_order(resolved_times(entries, table), entries.len())[0] as int].paths.len()
            <= entries.len(),
    ensures
        active_index(
            built_cycle(entries, table).unwrap(),
            built_cycle(entries, table).unwrap()[0].time,
        ) == 0,
{
    let times = resolved_times(entries, table);
    let n = entries.len();
    let order = time_order(times, n);
    let points = built_cycle(entries, table).unwrap();
    lemma_time_order_sorts(times, n);
    lemma_first_point_is_earliest(entries, table);
    let first = order[0] as int;
    let start = times[first];
    let step = step_after(times, order, 0);
    let head = entry_points(entries[first].paths, start, step);
    assert(laid_out(entries, times, order, 0) == Seq::<PointView>::empty());
    assert(laid_out(entries, times, order, 1) == laid_out(entries, times, order, 0) + head);
    assert(times[first] == resolved_nanos(entries[first].anchor, table));
    reveal_with_fuel(first_later, 3);
    if points.len() > 1 {
        assert(!has_empty_span(times, order));
        assert(gap_after(times, order, 0) > 0);
        if head.len() > 1 {
            lemma_laid_out_grows(entries, times, order, 1, n);
            assert(points[1] == head[1]);
            assert(n >= 2);
            let gap = gap_after(times, order, 0);
            assert(step <= gap) by {
                vstd::arithmetic::div_mod::lemma_div_is_ordered_by_denominator(gap, 1, n as int);
                vstd::arithmetic::div_mod::lemma_div_basics(gap);
            }
            let second = order[1] as int;
            assert(times[second] == resolved_nanos(entries[second].anchor, table));
            assert(step * 1 == step);
            assert(points[1].time == start + step);
        } else {
            assert(n >= 2) by {
                if n < 2 {
                    assert(laid_out(entries, times, order, 1) == points);
                }
            }
            lemma_laid_out_grows(entries, times, order, 2, n);
            let second = order[1] as int;
            let next = entry_points(
                entries[second].paths,
                times[second],
                step_after(times, order, 1),
            );
            assert(laid_out(entries, times, order, 2) == laid_out(entries, times, order, 1)
                + next);
            assert(laid_out(entries, times, order, 2)[1] == next[0]);
            assert(step_after(times, order, 1) * 0 == 0);
            assert(times[second] == resolved_nanos(entries[second].anchor, table));
            assert(points[1].time == times[second]);
        }
        assert(points[1].time > points[0].time);
    }
}

/// Whether every one of the first `n` times is a whole number of seconds
/// within the day.
pub open spec fn are_whole_seconds(times: Seq<nat>, n: nat) -> bool {
    forall|i: int|
        0 <= i < n ==> (#[trigger] times[i]) % (NANOS_PER_SECOND as nat) == 0 && times[i]
            < NANOS_PER_DAY
}

/// Entries at different whole seconds of the day, in order of time, lie at
/// least as many seconds behind the first as their place says.
proof fn lemma_whole_seconds_spread(times: Seq<nat>, order: Seq<usize>, q: int)
    requires
        is_stable_order(times, order, order.len()),
        are_whole_seconds(times, order.len()),
        !has_empty_span(times, order),
        0 <= q < order.len(),
    ensures
        times[order[q] as int] >= times[order[0] as int] + q * NANOS_PER_SECOND,
    decreases q,
{
    if q > 0 {
        lemma_whole_seconds_spread(times, order, q - 1);
        assert(gap_after(times, order, q - 1) > 0);
        let a = times[order[q - 1] as int];
        let b = times[order[q] as int];
        assert(a % (NANOS_PER_SECOND as nat) == 0 && b % (NANOS_PER_SECOND as nat) == 0);
        assert(b > a);
    }
}

/// Where the times of the entries are whole seconds, all different, every
/// step is positive: there are at most 86 400 entries, and the span from
/// each to the next is a second at least.
pub proof fn lemma_whole_second_steps_are_positive(times: Seq<nat>, n: nat, i: int)
    requires
        0 < n <= usize::MAX,
        n <= times.len(),
        are_whole_seconds(times, n),
        !has_empty_span(times, time_order(times, n)),
        0 <= i < n,
    ensures
        n <= 86_400,
        step_after(times, time_order(times, n), i) > 0,
{
    let order = time_order(times, n);
    lemma_time_order_sorts(times, n);
    assert(are_whole_seconds(times, order.len()));
    lemma_whole_seconds_spread(times, order, n - 1);
    let last = times[order[n - 1] as int];
    assert(last < NANOS_PER_DAY);
    assert(n <= 86_400);
    let gap = gap_after(times, order, i);
    assert(gap > 0);
    let a = times[order[i] as int];
    assert(a % (NANOS_PER_SECOND as nat) == 0);
    if i + 1 < n {
        let b = times[order[i + 1] as int];
        assert(b % (NANOS_PER_SECOND as nat) == 0);
    } else {
        let b = times[order[0] as int];
        assert(b % (NANOS_PER_SECOND as nat) == 0);
    }
    assert(gap >= NANOS_PER_SECOND);
    assert(gap / (n as int) >= 1) by (nonlinear_arith)
        requires
            gap >= 1_000_000_000,
            0 < n <= 86_400,
    ;
}

} // verus!
