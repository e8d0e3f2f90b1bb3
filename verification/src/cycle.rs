//! The cycle: the timeline of one day, and the lookup of the active point.

use crate::time::{TimeOfDay, NANOS_PER_DAY};
use vstd::prelude::*;

verus! {

/// What a point of the cycle says: a time of day in nanoseconds since
/// midnight, and the path of the image that becomes active then.
pub struct PointView {
    pub time: nat,
    pub path: Seq<char>,
}

/// One point of the cycle: from its time of day on, its image is the
/// active one.
#[derive(Debug)]
pub struct InterpolatedPoint {
    time: TimeOfDay,
    path: String,
}

impl View for InterpolatedPoint {
    type V = PointView;

    closed spec fn view(&self) -> PointView {
        PointView { time: self.time@, path: self.path@ }
    }
}

impl InterpolatedPoint {
    /// The point's time lies within the day.
    #[verifier::type_invariant]
    pub open spec fn wf(self) -> bool {
        self@.time < NANOS_PER_DAY
    }

    /// The point that brings up `path` at `time`.
    pub fn new(time: TimeOfDay, path: String) -> (point: InterpolatedPoint)
        ensures
            point@ == (PointView { time: time@, path: path@ }),
            point.wf(),
    {
        proof {
            use_type_invariant(time);
        }
        InterpolatedPoint { time, path }
    }

    /// The time of day from which the point is active.
    pub fn time(&self) -> (t: TimeOfDay)
        ensures
            t@ == self@.time,
    {
        self.time
    }

    /// The path of the point's image.
    pub fn path(&self) -> (p: &str)
        ensures
            p@ == self@.path,
    {
        self.path.as_str()
    }
}

/// The views of the points, in order.
pub open spec fn point_views(points: Seq<InterpolatedPoint>) -> Seq<PointView> {
    Seq::new(points.len(), |i: int| points[i]@)
}

/// Whether the points' times never go down from one point to the next.
pub open spec fn is_ascending(points: Seq<PointView>) -> bool {
    forall|i: int, j: int| 0 <= i <= j < points.len() ==> points[i].time <= points[j].time
}

/// The index, at or after `from`, of the first point that is later than
/// `t`, or the number of points if there is none.
pub open spec fn first_later(points: Seq<PointView>, t: nat, from: int) -> int
    decreases points.len() - from,
{
    if from < 0 || from >= points.len() {
        points.len() as int
    } else if points[from].time > t {
        from
    } else {
        first_later(points, t, from + 1)
    }
}

/// The index of the point that is active at `t`: the one just before the
/// first point that is later than `t`, and the last point of the cycle if
/// that first later point is the first of all or if no point is later.
/// Where the points are in ascending order this is the latest point that
/// is not later than `t`, and the last point of the cycle, still active
/// from the day before, where `t` is earlier than every point. Where they
/// are not, because an entry's images run past the next entry or past
/// midnight, the answer still follows the order of the points, not their
/// times: a point that stands behind a later one is passed over until the
/// points before it have had their turn.
pub open spec fn active_index(points: Seq<PointView>, t: nat) -> int {
    let later = first_later(points, t, 0);
    if later == 0 {
        points.len() - 1
    } else {
        later - 1
    }
}

/// The timeline of one day: the points at which the active image changes,
/// read as a ring on which the last point stays active past midnight until
/// the first point comes round again. A cycle has at least one point.
#[derive(Debug)]
pub struct Cycle {
    points: Vec<InterpolatedPoint>,
}

impl View for Cycle {
    type V = Seq<PointView>;

    closed spec fn view(&self) -> Seq<PointView> {
        point_views(self.points@)
    }
}

impl Cycle {
    /// A cycle has at least one point.
    #[verifier::type_invariant]
    pub open spec fn wf(self) -> bool {
        self@.len() > 0
    }

    /// The cycle of the given points, in the given order, unless there is
    /// none.
    pub fn new(points: Vec<InterpolatedPoint>) -> (r: Option<Cycle>)
        ensures
            r is Some <==> points@.len() > 0,
            r matches Some(cycle) ==> cycle@ == point_views(points@) && cycle.wf(),
    {
        if points.len() == 0 {
            return None;
        }
        Some(Cycle { points })
    }

    /// The number of points.
    pub fn len(&self) -> (n: usize)
        ensures
            n == self@.len(),
            n > 0,
    {
        proof {
            use_type_invariant(self);
        }
        self.points.len()
    }

    /// The points, in order.
    pub fn points(&self) -> (points: &Vec<InterpolatedPoint>)
        ensures
            point_views(points@) == self@,
    {
        &self.points
    }

    /// The point at `index`, if there is one.
    pub fn point(&self, index: usize) -> (r: Option<&InterpolatedPoint>)
        ensures
            r is Some <==> index < self@.len(),
            r matches Some(point) ==> point@ == self@[index as int],
    {
        if index < self.points.len() {
            Some(&self.points[index])
        } else {
            None
        }
    }

    /// Whether the points' times never go down from one point to the next.
    pub fn is_ascending(&self) -> (ascending: bool)
        ensures
            ascending == is_ascending(self@),
    {
        let mut i: usize = 1;
        while i < self.points.len()
            invariant
                1 <= i,
                forall|a: int, b: int|
                    0 <= a <= b < i && b < self@.len() ==> self@[a].time <= self@[b].time,
            decreases self.points.len() - i,
        {
            if self.points[i - 1].time.nanos() > self.points[i].time.nanos() {
                assert(self@[i - 1].time > self@[i as int].time);
                return false;
            }
            assert forall|a: int, b: int| 0 <= a <= b < i + 1 && b < self@.len() implies self@[a].time
                <= self@[b].time by {
                if b == i && a < i {
                    assert(self@[a].time <= self@[i - 1].time);
                }
            }
            i = i + 1;
        }
        true
    }

    /// The index of the point that is active at `t`.
    pub fn active_index(&self, t: TimeOfDay) -> (index: usize)
        ensures
            index == active_index(self@, t@),
            index < self@.len(),
    {
        proof {
            use_type_invariant(self);
        }
        let now: u64 = t.nanos();
        let mut i: usize = 0;
        while i < self.points.len() && self.points[i].time.nanos() <= now
            invariant
                i <= self.points.len(),
                now == t@,
                first_later(self@, t@, 0) == first_later(self@, t@, i as int),
            decreases self.points.len() - i,
        {
            i = i + 1;
        }
        if i == 0 {
            self.points.len() - 1
        } else {
            i - 1
        }
    }
}

/// The path of the image that is active at time `t` of the day.
pub fn active_point_at(cycle: &Cycle, t: TimeOfDay) -> (path: &str)
    ensures
        path@ == cycle@[active_index(cycle@, t@)].path,
{
    let index = cycle.active_index(t);
    cycle.points[index].path.as_str()
}

/// From `from` on, no point before the first later one is later than `t`,
/// and the first later one, if there is one, is.
pub proof fn lemma_first_later(points: Seq<PointView>, t: nat, from: int)
    requires
        0 <= from <= points.len(),
    ensures
        from <= first_later(points, t, from) <= points.len(),
        forall|i: int| from <= i < first_later(points, t, from) ==> points[i].time <= t,
        first_later(points, t, from) < points.len() ==> points[first_later(points, t, from)].time
            > t,
    decreases points.len() - from,
{
    if from < points.len() && points[from].time <= t {
        lemma_first_later(points, t, from + 1);
    }
}

/// The lookup is total: at every time of day exactly one point of a cycle
/// is active, the one that `active_index` names.
pub proof fn lemma_active_point_exists(points: Seq<PointView>, t: nat)
    requires
        points.len() > 0,
    ensures
        0 <= active_index(points, t) < points.len(),
{
    lemma_first_later(points, t, 0);
}

/// No gaps and no overlaps: in a cycle in ascending order, a time from the
/// time of point `i` on and before the time of the next point belongs to
/// point `i`, and a time from the time of the last point on belongs to the
/// last point.
pub proof fn lemma_active_from_point_on(points: Seq<PointView>, t: nat, i: int)
    requires
        is_ascending(points),
        0 <= i < points.len(),
        points[i].time <= t,
        i + 1 < points.len() ==> t < points[i + 1].time,
    ensures
        active_index(points, t) == i,
{
    lemma_first_later(points, t, 0);
    let later = first_later(points, t, 0);
    if later <= i {
        assert(points[later].time <= points[i].time);
    }
    if later > i + 1 {
        assert(points[i + 1].time <= t);
    }
}

/// Wraparound: before the time of the first point, the last point of the
/// cycle is the active one.
pub proof fn lemma_active_before_first(points: Seq<PointView>, t: nat)
    requires
        points.len() > 0,
        t < points[0].time,
    ensures
        active_index(points, t) == points.len() - 1,
{
}

/// At the time of the first point of a cycle in ascending order, the first
/// point is the active one, unless the point after it has the same time.
pub proof fn lemma_active_at_first(points: Seq<PointView>)
    requires
        is_ascending(points),
        points.len() > 0,
        points.len() > 1 ==> points[0].time < points[1].time,
    ensures
        active_index(points, points[0].time) == 0,
{
    lemma_active_from_point_on(points, points[0].time, 0);
}

/// In a cycle in ascending order, the active point is the latest point that
/// is not later than `t`, where there is such a point: it is not later than
/// `t`, and every point after it is.
pub proof fn lemma_active_is_latest(points: Seq<PointView>, t: nat)
    requires
        is_ascending(points),
        points.len() > 0,
        points[0].time <= t,
    ensures
        points[active_index(points, t)].time <= t,
        forall|j: int|
            active_index(points, t) < j < points.len() ==> (#[trigger] points[j]).time > t,
{
    lemma_first_later(points, t, 0);
    let later = first_later(points, t, 0);
    assert forall|j: int| active_index(points, t) < j < points.len() implies (
    #[trigger] points[j]).time > t by {
        assert(points[later].time <= points[j].time);
    }
}

} // verus!
