//! Schedule entries and the parser of schedule text.

use crate::error::CycleError;
use crate::solar::{known_times, shortcut_event, SolarEvent, SolarTimeTable};
use crate::text::{
    find_first, first_at, lemma_first_at, lemma_first_piece, lemma_split_cuts_at_separators,
    number, parse_number, part_of, rest_of, split, split_at, strip_blanks, text_of, texts,
    texts_of, views, without_blanks,
};
use crate::time::{
    clock_nanos, TimeOfDay, NANOS_PER_DAY, NANOS_PER_MINUTE, NANOS_PER_SECOND,
};
use vstd::prelude::*;

verus! {

/// What an anchor says: the clock time written in it, in nanoseconds since
/// midnight, and the solar event it names, if it is symbolic.
pub struct AnchorView {
    pub event: Option<SolarEvent>,
    pub literal: nat,
}

/// What a schedule entry says: its anchor and its image paths, in order.
pub struct EntryView {
    pub anchor: AnchorView,
    pub paths: Seq<Seq<char>>,
}

/// The marker of a time of day in a schedule: either a clock time, or a
/// solar event together with the clock time to fall back on while solar
/// times are not to be had.
#[derive(Clone, Copy, Debug)]
pub enum TimeAnchor {
    Explicit { time: TimeOfDay },
    Symbolic { event: SolarEvent, fallback: TimeOfDay },
}

impl View for TimeAnchor {
    type V = AnchorView;

    open spec fn view(&self) -> AnchorView {
        match *self {
            TimeAnchor::Explicit { time } => AnchorView { event: None, literal: time@ },
            TimeAnchor::Symbolic { event, fallback } => AnchorView {
                event: Some(event),
                literal: fallback@,
            },
        }
    }
}

/// The time of day that an anchor resolves to: for a symbolic anchor the
/// table's time of its event, if there is a table and it knows the event;
/// in every other case the clock time written in the anchor.
pub open spec fn resolved_nanos(anchor: AnchorView, table: Option<Map<SolarEvent, nat>>) -> nat {
    match (anchor.event, table) {
        (Some(event), Some(times)) => if times.contains_key(event) {
            times[event]
        } else {
            anchor.literal
        },
        _ => anchor.literal,
    }
}

impl TimeAnchor {
    /// The clock time written in the anchor.
    pub fn literal(&self) -> (t: TimeOfDay)
        ensures
            t@ == self@.literal,
            t.wf(),
    {
        let t = match self {
            TimeAnchor::Explicit { time } => *time,
            TimeAnchor::Symbolic { fallback, .. } => *fallback,
        };
        proof {
            use_type_invariant(t);
        }
        t
    }

    /// The time of day the anchor stands for, given the solar times at hand.
    pub fn resolved_time(&self, table: Option<&SolarTimeTable>) -> (t: TimeOfDay)
        ensures
            t@ == resolved_nanos(self@, known_times(table)),
            t.wf(),
    {
        let t = match (self, table) {
            (TimeAnchor::Symbolic { event, fallback }, Some(known)) => match known.get(*event) {
                Some(t) => t,
                None => *fallback,
            },
            _ => self.literal(),
        };
        proof {
            use_type_invariant(t);
        }
        t
    }
}

/// Resolves an anchor to an explicit one: a symbolic anchor takes the
/// table's time of its event, if a table is given and knows the event, and
/// its own fallback otherwise; an explicit anchor stays as it is.
pub fn resolve_anchor(anchor: &TimeAnchor, table: Option<&SolarTimeTable>) -> (resolved: TimeAnchor)
    ensures
        resolved@.event is None,
        resolved@.literal == resolved_nanos(anchor@, known_times(table)),
{
    TimeAnchor::Explicit { time: anchor.resolved_time(table) }
}

/// One entry of a schedule: an anchor and the image paths that it brings
/// up, of which there is at least one. The paths are kept as written,
/// relative to the directory of the schedule.
#[derive(Debug)]
pub struct ScheduleEntry {
    anchor: TimeAnchor,
    paths: Vec<String>,
}

impl View for ScheduleEntry {
    type V = EntryView;

    closed spec fn view(&self) -> EntryView {
        EntryView { anchor: self.anchor@, paths: texts(self.paths@) }
    }
}

/// The views of the entries, in order.
pub open spec fn entry_views(entries: Seq<ScheduleEntry>) -> Seq<EntryView> {
    Seq::new(entries.len(), |i: int| entries[i]@)
}

impl ScheduleEntry {
    /// An entry brings up at least one path, and its anchor's clock time
    /// lies within the day.
    #[verifier::type_invariant]
    pub open spec fn wf(self) -> bool {
        self@.paths.len() > 0 && self@.anchor.literal < NANOS_PER_DAY
    }

    /// The entry of `anchor` with `paths`, unless there is no path.
    pub fn new(anchor: TimeAnchor, paths: Vec<String>) -> (r: Option<ScheduleEntry>)
        ensures
            r is Some <==> paths@.len() > 0,
            r matches Some(entry) ==> entry@ == (EntryView {
                anchor: anchor@,
                paths: texts(paths@),
            }) && entry.wf(),
    {
        if paths.len() == 0 {
            return None;
        }
        let literal = anchor.literal();
        proof {
            use_type_invariant(literal);
        }
        Some(ScheduleEntry { anchor, paths })
    }

    /// The entry's anchor.
    pub fn anchor(&self) -> (a: TimeAnchor)
        ensures
            a@ == self@.anchor,
    {
        self.anchor
    }

    /// The entry's paths, in order.
    pub fn paths(&self) -> (p: &Vec<String>)
        ensures
            texts(p@) == self@.paths,
            p@.len() > 0,
    {
        proof {
            use_type_invariant(self);
        }
        &self.paths
    }
}

/// The time of day that `HH_MM` writes, in nanoseconds since midnight. One
/// underscore parts hour and minute, which must be numbers from 0 to 23 and
/// from 0 to 59. A literal of any other form writes no time.
pub open spec fn time_literal(s: Seq<char>) -> Option<nat> {
    let parts = split(s, '_');
    if parts.len() != 2 {
        None
    } else {
        match (number(parts[0]), number(parts[1])) {
            (Some(h), Some(m)) => if h < 24 && m < 60 {
                Some(clock_nanos(h as int, m as int, 0) as nat)
            } else {
                None
            },
            _ => None,
        }
    }
}

/// What the anchor of line `line` says. An anchor that begins with `#` is
/// symbolic: it holds a shortcut for a solar event, one colon, and the
/// clock time to fall back on. Any other anchor is a clock time. Where the
/// shortcut is not known, that is the fault, whatever follows it.
pub open spec fn line_anchor(anchor: Seq<char>, line: usize) -> Result<AnchorView, CycleError> {
    if anchor.len() > 0 && anchor[0] == '#' {
        let parts = split(anchor, ':');
        match shortcut_event(parts[0].skip(1)) {
            None => Err(CycleError::UnknownSolarShortcut { line }),
            Some(event) => if parts.len() != 2 {
                Err(CycleError::InvalidTimeLiteral { line })
            } else {
                match time_literal(parts[1]) {
                    Some(t) => Ok(AnchorView { event: Some(event), literal: t }),
                    None => Err(CycleError::InvalidTimeLiteral { line }),
                }
            },
        }
    } else {
        match time_literal(anchor) {
            Some(t) => Ok(AnchorView { event: None, literal: t }),
            None => Err(CycleError::InvalidTimeLiteral { line }),
        }
    }
}

/// The anchor of a line: what stands before the first `=`.
pub open spec fn anchor_part(text: Seq<char>) -> Seq<char> {
    text.subrange(0, first_at(text, '=', 0))
}

/// The path list of a line that has a `=`: everything after the first one.
pub open spec fn paths_part(text: Seq<char>) -> Seq<char> {
    text.subrange(first_at(text, '=', 0) + 1, text.len() as int)
}

/// Whether a line lacks the `=` that parts anchor and paths, or has
/// nothing after it.
pub open spec fn is_malformed(text: Seq<char>) -> bool {
    first_at(text, '=', 0) + 1 >= text.len()
}

/// What line `line` of a schedule says, blanks already removed. The first
/// `=` parts the anchor from the paths, which commas keep apart; a further
/// `=` is part of a path. A line without `=`, or with nothing after the
/// first one, is malformed.
pub open spec fn line_entry(text: Seq<char>, line: usize) -> Result<EntryView, CycleError> {
    if is_malformed(text) {
        Err(CycleError::MalformedSchedule { line })
    } else {
        match line_anchor(anchor_part(text), line) {
            Err(e) => Err(e),
            Ok(anchor) => Ok(EntryView { anchor, paths: split(paths_part(text), ',') }),
        }
    }
}

/// The entries that the lines of a schedule hold, in the order of the
/// lines. Empty lines hold none. The first line at fault decides the error.
pub open spec fn lines_entries(lines: Seq<Seq<char>>) -> Result<Seq<EntryView>, CycleError>
    decreases lines.len(),
{
    if lines.len() == 0 {
        Ok(Seq::empty())
    } else {
        match lines_entries(lines.drop_last()) {
            Err(e) => Err(e),
            Ok(entries) => if lines.last().len() == 0 {
                Ok(entries)
            } else {
                match line_entry(lines.last(), (lines.len() - 1) as usize) {
                    Err(e) => Err(e),
                    Ok(entry) => Ok(entries.push(entry)),
                }
            },
        }
    }
}

/// The entries that a schedule text holds: blanks are removed throughout,
/// and every line feed ends a line.
pub open spec fn schedule_entries(text: Seq<char>) -> Result<Seq<EntryView>, CycleError> {
    lines_entries(split(without_blanks(text), '\n'))
}

/// Reads a clock time written as `HH_MM`.
pub fn parse_time_literal(s: &Vec<char>) -> (r: Option<TimeOfDay>)
    ensures
        r is Some <==> time_literal(s@) is Some,
        r matches Some(t) ==> t@ == time_literal(s@).unwrap() && t.wf(),
{
    let parts = split_at(s, '_');
    if parts.len() != 2 {
        return None;
    }
    assert(views(parts@)[0] == parts@[0]@ && views(parts@)[1] == parts@[1]@);
    match (parse_number(&parts[0], 23), parse_number(&parts[1], 59)) {
        (Some(h), Some(m)) => TimeOfDay::from_hms(h, m, 0),
        _ => None,
    }
}

/// Reads the anchor of line `line`.
pub fn parse_anchor(anchor: &Vec<char>, line: usize) -> (r: Result<TimeAnchor, CycleError>)
    ensures
        match line_anchor(anchor@, line) {
            Ok(said) => r matches Ok(a) && a@ == said,
            Err(e) => r == Err::<TimeAnchor, CycleError>(e),
        },
{
    if anchor.len() > 0 && anchor[0] == '#' {
        let parts = split_at(anchor, ':');
        assert(views(parts@)[0] == parts@[0]@);
        assert(split(anchor@, ':')[0].len() > 0) by {
            lemma_first_piece(anchor@, ':');
        }
        let shortcut = rest_of(&parts[0]);
        match SolarEvent::from_shortcut(&shortcut) {
            None => Err(CycleError::UnknownSolarShortcut { line }),
            Some(event) => {
                if parts.len() != 2 {
                    return Err(CycleError::InvalidTimeLiteral { line });
                }
                assert(views(parts@)[1] == parts@[1]@);
                match parse_time_literal(&parts[1]) {
                    Some(fallback) => Ok(TimeAnchor::Symbolic { event, fallback }),
                    None => Err(CycleError::InvalidTimeLiteral { line }),
                }
            },
        }
    } else {
        match parse_time_literal(anchor) {
            Some(time) => Ok(TimeAnchor::Explicit { time }),
            None => Err(CycleError::InvalidTimeLiteral { line }),
        }
    }
}

/// Reads line `line` of a schedule, blanks already removed.
pub fn parse_line(text: &Vec<char>, line: usize) -> (r: Result<ScheduleEntry, CycleError>)
    ensures
        match line_entry(text@, line) {
            Ok(said) => r matches Ok(entry) && entry@ == said && entry.wf(),
            Err(e) => r == Err::<ScheduleEntry, CycleError>(e),
        },
{
    let cut = find_first(text, '=');
    if cut >= text.len() || cut + 1 == text.len() {
        return Err(CycleError::MalformedSchedule { line });
    }
    let anchor_text = part_of(text, 0, cut);
    let list = part_of(text, cut + 1, text.len());
    match parse_anchor(&anchor_text, line) {
        Err(e) => Err(e),
        Ok(anchor) => {
            let pieces = split_at(&list, ',');
            let paths = texts_of(&pieces);
            assert(texts(paths@).len() == paths@.len());
            match ScheduleEntry::new(anchor, paths) {
                Some(entry) => Ok(entry),
                None => Err(CycleError::MalformedSchedule { line }),
            }
        },
    }
}

/// Reads a schedule text into its entries, in the order in which they are
/// written. Fails on the first line at fault: with `MalformedSchedule` if
/// it has no `=` or nothing after it, with `UnknownSolarShortcut` if its
/// anchor is symbolic and the shortcut is not known, with
/// `InvalidTimeLiteral` if the anchor's clock time cannot be read.
pub fn parse_schedule(text: &str) -> (r: Result<Vec<ScheduleEntry>, CycleError>)
    ensures
        match schedule_entries(text@) {
            Ok(said) => r matches Ok(entries) && entry_views(entries@) == said,
            Err(e) => r == Err::<Vec<ScheduleEntry>, CycleError>(e),
        },
{
    let stripped = strip_blanks(text);
    let lines = split_at(&stripped, '\n');
    let ghost said_lines = split(without_blanks(text@), '\n');
    let mut entries: Vec<ScheduleEntry> = Vec::new();
    let mut i: usize = 0;
    assert(said_lines.take(0) == Seq::<Seq<char>>::empty());
    assert(entry_views(entries@) == Seq::<EntryView>::empty());
    while i < lines.len()
        invariant
            i <= lines.len(),
            views(lines@) == said_lines,
            said_lines == split(without_blanks(text@), '\n'),
            lines_entries(said_lines.take(i as int)) == Ok::<Seq<EntryView>, CycleError>(
                entry_views(entries@),
            ),
        decreases lines.len() - i,
    {
        proof {
            assert(said_lines.take(i + 1).drop_last() == said_lines.take(i as int));
            assert(said_lines.take(i + 1).last() == lines@[i as int]@);
        }
        if lines[i].len() > 0 {
            match parse_line(&lines[i], i) {
                Err(e) => {
                    proof {
                        lemma_lines_entries_fails(said_lines, i + 1);
                    }
                    return Err(e);
                },
                Ok(entry) => {
                    proof {
                        assert(entry_views(entries@.push(entry)) == entry_views(entries@).push(
                            entry@,
                        ));
                    }
                    entries.push(entry);
                },
            }
        }
        i = i + 1;
    }
    proof {
        assert(said_lines.take(lines.len() as int) == said_lines);
    }
    Ok(entries)
}

/// The error of the first lines of a schedule is the error of the whole.
proof fn lemma_lines_entries_fails(lines: Seq<Seq<char>>, n: int)
    requires
        0 <= n <= lines.len(),
        lines_entries(lines.take(n)) is Err,
    ensures
        lines_entries(lines) == lines_entries(lines.take(n)),
    decreases lines.len() - n,
{
    if n < lines.len() {
        assert(lines.take(n + 1).drop_last() == lines.take(n));
        lemma_lines_entries_fails(lines, n + 1);
    } else {
        assert(lines.take(n) == lines);
    }
}

/// With solar times at hand that know its event, a symbolic anchor resolves
/// to the time of that event, whatever fallback is written in it.
pub proof fn lemma_known_event_replaces_fallback(
    event: SolarEvent,
    fallback: nat,
    other_fallback: nat,
    times: Map<SolarEvent, nat>,
)
    requires
        times.contains_key(event),
    ensures
        resolved_nanos(AnchorView { event: Some(event), literal: fallback }, Some(times))
            == times[event],
        resolved_nanos(AnchorView { event: Some(event), literal: other_fallback }, Some(times))
            == times[event],
{
}

/// Without solar times, every anchor resolves to exactly the clock time
/// written in it; so does a symbolic anchor whose event the solar times do
/// not know, and an explicit anchor in every case.
pub proof fn lemma_written_time_stands(anchor: AnchorView, table: Option<Map<SolarEvent, nat>>)
    requires
        table is None || anchor.event is None || !table.unwrap().contains_key(
            anchor.event.unwrap(),
        ),
    ensures
        resolved_nanos(anchor, table) == anchor.literal,
{
}

/// The line of a schedule text that an error names, blanks removed, for
/// showing it to whoever wrote the schedule.
pub fn schedule_line(text: &str, line: usize) -> (r: Option<String>)
    ensures
        r is Some <==> line < split(without_blanks(text@), '\n').len(),
        r matches Some(content) ==> content@ == split(without_blanks(text@), '\n')[line as int],
{
    let stripped = strip_blanks(text);
    let lines = split_at(&stripped, '\n');
    if line < lines.len() {
        assert(views(lines@)[line as int] == lines@[line as int]@);
        Some(text_of(&lines[line]))
    } else {
        None
    }
}

/// Whether an entry is sound: it has a path, and the clock time written in
/// its anchor is a whole minute of the day.
pub open spec fn is_sound_entry(entry: EntryView) -> bool {
    &&& entry.paths.len() > 0
    &&& entry.anchor.literal < NANOS_PER_DAY
    &&& entry.anchor.literal % (NANOS_PER_MINUTE as nat) == 0
    &&& entry.anchor.literal % (NANOS_PER_SECOND as nat) == 0
}

/// A clock time that is written as `HH_MM` is a whole minute of the day.
pub proof fn lemma_time_literal_is_whole_minute(s: Seq<char>)
    requires
        time_literal(s) is Some,
    ensures
        time_literal(s).unwrap() < NANOS_PER_DAY,
        time_literal(s).unwrap() % (NANOS_PER_MINUTE as nat) == 0,
        time_literal(s).unwrap() % (NANOS_PER_SECOND as nat) == 0,
{
    let parts = split(s, '_');
    let h = number(parts[0]).unwrap() as int;
    let m = number(parts[1]).unwrap() as int;
    let minutes = h * 60 + m;
    assert(clock_nanos(h, m, 0) == minutes * 60_000_000_000);
    assert(clock_nanos(h, m, 0) == (minutes * 60) * 1_000_000_000);
}

/// Every entry that the lines of a schedule hold is sound.
pub proof fn lemma_lines_entries_are_sound(lines: Seq<Seq<char>>)
    requires
        lines_entries(lines) is Ok,
    ensures
        forall|i: int|
            0 <= i < lines_entries(lines).unwrap().len() ==> is_sound_entry(
                #[trigger] lines_entries(lines).unwrap()[i],
            ),
    decreases lines.len(),
{
    if lines.len() > 0 {
        lemma_lines_entries_are_sound(lines.drop_last());
        let line = lines.last();
        if line.len() > 0 {
            let index = (lines.len() - 1) as usize;
            let entry = line_entry(line, index).unwrap();
            lemma_split_cuts_at_separators(paths_part(line), ',');
            let anchor = anchor_part(line);
            if anchor.len() > 0 && anchor[0] == '#' {
                lemma_time_literal_is_whole_minute(split(anchor, ':')[1]);
            } else {
                lemma_time_literal_is_whole_minute(anchor);
            }
            assert(is_sound_entry(entry));
        }
    }
}

/// A line is malformed exactly where it holds no `=` or where its first
/// `=` is its last character, and only such a line fails as malformed: a
/// line with a `=` and something after it fails, if at all, on its anchor.
pub proof fn lemma_malformed_lines(text: Seq<char>, line: usize)
    ensures
        is_malformed(text) <==> !text.contains('=') || first_at(text, '=', 0) == text.len() - 1,
        line_entry(text, line) == Err::<EntryView, CycleError>(
            CycleError::MalformedSchedule { line },
        ) <==> is_malformed(text),
        !is_malformed(text) ==> paths_part(text).len() > 0 && anchor_part(text).push('=')
            + paths_part(text) == text,
{
    lemma_first_at(text, '=', 0);
    let cut = first_at(text, '=', 0);
    if cut < text.len() {
        assert(text.contains('='));
    } else {
        if text.contains('=') {
            let i = choose|i: int| 0 <= i < text.len() && text[i] == '=';
            assert(text[i] != '=');
        }
    }
    if !is_malformed(text) {
        assert(anchor_part(text).push('=') + paths_part(text) == text);
    }
}

} // verus!
