//! The run record that the save-file reader fills in.

use vstd::prelude::*;

verus! {

/// Every way in which reading a save file can fail.
#[derive(Debug, Clone, Copy, PartialEq, Eq, Structural)]
pub enum ParseError {
    /// The markup itself is malformed, or an escape could not be resolved.
    Xml,
    /// Text other than `True` or `False` where a boolean was required.
    InvalidBoolean,
    /// The document ended while more events were expected.
    UnexpectedEndOfInput,
    /// An element started where bare text was required.
    UnexpectedNestedElement,
    /// A required attribute was absent.
    AttributeNotFound,
    /// Decoded bytes are not valid UTF-8.
    TextEncoding,
    /// Text that should hold an integer does not.
    IntegerFormat,
    /// Text that should hold a time span is in neither encoding.
    TimeSpanFormat,
    /// A start or end timestamp does not follow the fixed date-time format.
    DateFormat,
}

/// A signed duration, in nanoseconds.
#[derive(Debug, Clone, Copy, PartialEq, Eq, Structural)]
pub struct TimeSpan {
    pub nanos: i64,
}

impl TimeSpan {
    pub fn zero() -> (r: TimeSpan)
        ensures
            r.nanos == 0,
    {
        TimeSpan { nanos: 0 }
    }
}

/// A real-time and a game-time reading, either of which may be missing.
#[derive(Debug, Clone, Copy, PartialEq, Eq, Structural)]
pub struct Time {
    pub real_time: Option<TimeSpan>,
    pub game_time: Option<TimeSpan>,
}

impl Time {
    /// The time with neither reading.
    pub open spec fn empty_spec() -> Time {
        Time { real_time: None, game_time: None }
    }

    pub fn new() -> (r: Time)
        ensures
            r == Time::empty_spec(),
    {
        Time { real_time: None, game_time: None }
    }
}

/// A point in time, in nanoseconds since the Unix epoch, UTC.
#[derive(Debug, Clone, Copy, PartialEq, Eq, Structural)]
pub struct DateTime {
    pub nanos: i128,
}

/// A point in time together with whether it was checked against an
/// external clock.
#[derive(Debug, Clone, Copy, PartialEq, Eq, Structural)]
pub struct AtomicDateTime {
    pub time: DateTime,
    pub synced_with_atomic_clock: bool,
}

/// One recorded attempt of the run.
#[derive(Debug, Clone, Copy, PartialEq, Eq, Structural)]
pub struct Attempt {
    pub index: i32,
    pub time: Time,
    pub pause_time: Option<TimeSpan>,
    pub started: Option<AtomicDateTime>,
    pub ended: Option<AtomicDateTime>,
}

/// A named comparison time of a segment.
#[derive(Debug, Clone)]
pub struct Comparison {
    pub name: String,
    pub time: Time,
}

/// One checkpoint of the run.
#[derive(Debug, Clone)]
pub struct Segment {
    pub name: String,
    /// The decoded icon; empty where there is none.
    pub icon: Vec<u8>,
    /// The personal best split time that documents before 1.3 record.
    pub personal_best_split_time: Option<Time>,
    pub best_segment_time: Time,
    /// Comparison times by name; no name occurs twice.
    pub comparisons: Vec<Comparison>,
    /// Segment times of earlier attempts by attempt index; no index occurs
    /// twice.
    pub segment_history: Vec<(i32, Time)>,
}

/// A name and a value of a custom variable.
#[derive(Debug, Clone)]
pub struct Variable {
    pub name: String,
    pub value: String,
}

/// Who and what the run is for.
#[derive(Debug, Clone)]
pub struct Metadata {
    pub run_id: String,
    pub platform_name: String,
    pub uses_emulator: bool,
    pub region_name: String,
    /// In document order.
    pub variables: Vec<Variable>,
}

/// The whole record of a save file.
#[derive(Debug, Clone)]
pub struct Run {
    /// The decoded game icon; empty where there is none.
    pub game_icon: Vec<u8>,
    pub game_name: String,
    pub category_name: String,
    pub offset: TimeSpan,
    pub attempt_count: u32,
    /// In split order.
    pub segments: Vec<Segment>,
    /// The custom comparison names, each once.
    pub custom_comparisons: Vec<String>,
    pub attempt_history: Vec<Attempt>,
    pub metadata: Metadata,
    pub path: Option<String>,
}

/// The names of the comparisons that `cs` holds.
pub open spec fn comparison_names(cs: Seq<Comparison>) -> Seq<Seq<char>> {
    cs.map_values(|c: Comparison| c.name@)
}

/// The comparisons of `cs` as names and times.
pub open spec fn comparisons_view(cs: Seq<Comparison>) -> Seq<(Seq<char>, Time)> {
    cs.map_values(|c: Comparison| (c.name@, c.time))
}

/// No key of `h` occurs twice.
pub open spec fn history_keys_unique(h: Seq<(i32, Time)>) -> bool {
    forall|i: int, j: int| 0 <= i < j < h.len() ==> h[i].0 != h[j].0
}

/// No name occurs twice.
pub open spec fn names_unique(ns: Seq<Seq<char>>) -> bool {
    forall|i: int, j: int| 0 <= i < j < ns.len() ==> ns[i] != ns[j]
}

/// What a segment holds, with its strings as characters.
pub struct SegmentModel {
    pub name: Seq<char>,
    pub icon: Seq<u8>,
    pub personal_best_split_time: Option<Time>,
    pub best_segment_time: Time,
    pub comparisons: Seq<(Seq<char>, Time)>,
    pub segment_history: Seq<(i32, Time)>,
}

/// The segment that a `Segment` element without children gives.
pub open spec fn empty_segment() -> SegmentModel {
    SegmentModel {
        name: Seq::<char>::empty(),
        icon: Seq::<u8>::empty(),
        personal_best_split_time: None,
        best_segment_time: Time { real_time: None, game_time: None },
        comparisons: Seq::<(Seq<char>, Time)>::empty(),
        segment_history: Seq::<(i32, Time)>::empty(),
    }
}

impl Segment {
    pub open spec fn model(&self) -> SegmentModel {
        SegmentModel {
            name: self.name@,
            icon: self.icon@,
            personal_best_split_time: self.personal_best_split_time,
            best_segment_time: self.best_segment_time,
            comparisons: comparisons_view(self.comparisons@),
            segment_history: self.segment_history@,
        }
    }

    /// Comparison names and history indices each occur once.
    pub open spec fn wf(&self) -> bool {
        names_unique(comparison_names(self.comparisons@)) && history_keys_unique(
            self.segment_history@,
        )
    }

    pub fn new() -> (r: Segment)
        ensures
            r.name@ == Seq::<char>::empty(),
            r.icon@.len() == 0,
            r.personal_best_split_time is None,
            r.best_segment_time == (Time { real_time: None, game_time: None }),
            r.comparisons@.len() == 0,
            r.segment_history@.len() == 0,
            r.wf(),
            r.model() == empty_segment(),
    {
        let s = Segment {
            name: String::new(),
            icon: Vec::new(),
            personal_best_split_time: None,
            best_segment_time: Time { real_time: None, game_time: None },
            comparisons: Vec::new(),
            segment_history: Vec::new(),
        };
        assert(comparisons_view(s.comparisons@) =~= Seq::<(Seq<char>, Time)>::empty());
        assert(s.model().name =~= Seq::<char>::empty());
        assert(s.model().icon =~= Seq::<u8>::empty());
        assert(s.model().segment_history =~= Seq::<(i32, Time)>::empty());
        s
    }
}

/// `h` with `t` stored under `k`, replacing what `k` held.
pub open spec fn history_insert(h: Seq<(i32, Time)>, k: i32, t: Time) -> Seq<(i32, Time)> {
    if exists|i: int| 0 <= i < h.len() && h[i].0 == k {
        let i = choose|i: int| 0 <= i < h.len() && h[i].0 == k;
        h.update(i, (k, t))
    } else {
        h.push((k, t))
    }
}

/// What `h` holds under `k`.
pub open spec fn history_get(h: Seq<(i32, Time)>, k: i32) -> Option<Time> {
    if exists|i: int| 0 <= i < h.len() && h[i].0 == k {
        let i = choose|i: int| 0 <= i < h.len() && h[i].0 == k;
        Some(h[i].1)
    } else {
        None
    }
}

/// Stores `t` under `k`, replacing what `k` held.
pub fn history_set(h: &mut Vec<(i32, Time)>, k: i32, t: Time)
    requires
        history_keys_unique(old(h)@),
    ensures
        final(h)@ == history_insert(old(h)@, k, t),
        history_keys_unique(final(h)@),
{
    let mut i: usize = 0;
    while i < h.len()
        invariant
            h@ == old(h)@,
            history_keys_unique(old(h)@),
            i <= h@.len(),
            forall|j: int| 0 <= j < i ==> h@[j].0 != k,
        decreases h.len() - i,
    {
        if h[i].0 == k {
            proof {
                assert(h@[i as int].0 == k);
                let c = choose|j: int| 0 <= j < h@.len() && h@[j].0 == k;
                assert(history_keys_unique(h@));
                if c < i {
                    assert(h@[c].0 != h@[i as int].0);
                } else if c > i {
                    assert(h@[i as int].0 != h@[c].0);
                }
                assert(c == i);
            }
            h.set(i, (k, t));
            return;
        }
        i = i + 1;
    }
    h.push((k, t));
}

/// The last value stored under a key is the one the history keeps, and each
/// key stays once in it.
pub proof fn law_history_last_write_wins(h: Seq<(i32, Time)>, k: i32, t1: Time, t2: Time)
    requires
        history_keys_unique(h),
    ensures
        history_keys_unique(history_insert(history_insert(h, k, t1), k, t2)),
        history_get(history_insert(history_insert(h, k, t1), k, t2), k) == Some(t2),
{
    lemma_history_insert(h, k, t1);
    lemma_history_insert(history_insert(h, k, t1), k, t2);
}

pub proof fn lemma_history_insert(h: Seq<(i32, Time)>, k: i32, t: Time)
    requires
        history_keys_unique(h),
    ensures
        history_keys_unique(history_insert(h, k, t)),
        history_get(history_insert(h, k, t), k) == Some(t),
{
    let n = history_insert(h, k, t);
    if exists|i: int| 0 <= i < h.len() && h[i].0 == k {
        let i = choose|i: int| 0 <= i < h.len() && h[i].0 == k;
        assert(n[i].0 == k);
        let c = choose|j: int| 0 <= j < n.len() && n[j].0 == k;
        assert forall|a: int, b: int| 0 <= a < b < n.len() implies n[a].0 != n[b].0 by {
            if a != i && b != i {
                assert(h[a].0 != h[b].0);
            } else if a == i {
                assert(h[a].0 != h[b].0);
            } else {
                assert(h[a].0 != h[b].0);
            }
        }
        assert(c == i);
    } else {
        assert(n[h.len() as int].0 == k);
        let c = choose|j: int| 0 <= j < n.len() && n[j].0 == k;
        assert forall|a: int, b: int| 0 <= a < b < n.len() implies n[a].0 != n[b].0 by {
            if b < h.len() {
                assert(h[a].0 != h[b].0);
            } else {
                assert(n[a] == h[a]);
            }
        }
        if c < h.len() {
            assert(h[c].0 == k);
        }
        assert(c == h.len());
    }
}

/// What a metadata record holds, with its strings as characters.
pub struct MetadataModel {
    pub run_id: Seq<char>,
    pub platform_name: Seq<char>,
    pub uses_emulator: bool,
    pub region_name: Seq<char>,
    pub variables: Seq<(Seq<char>, Seq<char>)>,
}

/// The variables of `vs` as names and values.
pub open spec fn variables_view(vs: Seq<Variable>) -> Seq<(Seq<char>, Seq<char>)> {
    vs.map_values(|v: Variable| (v.name@, v.value@))
}

/// A metadata record with nothing read into it.
pub open spec fn empty_metadata() -> MetadataModel {
    MetadataModel {
        run_id: Seq::<char>::empty(),
        platform_name: Seq::<char>::empty(),
        uses_emulator: false,
        region_name: Seq::<char>::empty(),
        variables: Seq::<(Seq<char>, Seq<char>)>::empty(),
    }
}

/// What a run holds, with its strings as characters. The source path is
/// left out: it does not come from the document.
pub struct RunModel {
    pub game_icon: Seq<u8>,
    pub game_name: Seq<char>,
    pub category_name: Seq<char>,
    pub offset: TimeSpan,
    pub attempt_count: u32,
    pub segments: Seq<SegmentModel>,
    pub custom_comparisons: Seq<Seq<char>>,
    pub attempt_history: Seq<Attempt>,
    pub metadata: MetadataModel,
}

/// A run with nothing read into it.
pub open spec fn empty_run() -> RunModel {
    RunModel {
        game_icon: Seq::<u8>::empty(),
        game_name: Seq::<char>::empty(),
        category_name: Seq::<char>::empty(),
        offset: TimeSpan { nanos: 0 },
        attempt_count: 0,
        segments: Seq::<SegmentModel>::empty(),
        custom_comparisons: Seq::<Seq<char>>::empty(),
        attempt_history: Seq::<Attempt>::empty(),
        metadata: empty_metadata(),
    }
}

/// The views of a list of strings.
pub open spec fn string_views(v: Seq<String>) -> Seq<Seq<char>> {
    v.map_values(|s: String| s@)
}

/// The models of a list of segments.
pub open spec fn segment_models(v: Seq<Segment>) -> Seq<SegmentModel> {
    v.map_values(|s: Segment| s.model())
}

impl Metadata {
    pub open spec fn model(&self) -> MetadataModel {
        MetadataModel {
            run_id: self.run_id@,
            platform_name: self.platform_name@,
            uses_emulator: self.uses_emulator,
            region_name: self.region_name@,
            variables: variables_view(self.variables@),
        }
    }

    pub fn new() -> (r: Metadata)
        ensures
            r.model() == empty_metadata(),
            r.run_id@ == Seq::<char>::empty(),
            r.platform_name@ == Seq::<char>::empty(),
            !r.uses_emulator,
            r.region_name@ == Seq::<char>::empty(),
            r.variables@.len() == 0,
    {
        let m = Metadata {
            run_id: String::new(),
            platform_name: String::new(),
            uses_emulator: false,
            region_name: String::new(),
            variables: Vec::new(),
        };
        assert(m.model().run_id =~= Seq::<char>::empty());
        assert(m.model().platform_name =~= Seq::<char>::empty());
        assert(m.model().region_name =~= Seq::<char>::empty());
        assert(m.model().variables =~= Seq::<(Seq<char>, Seq<char>)>::empty());
        m
    }
}

impl Run {
    pub open spec fn model(&self) -> RunModel {
        RunModel {
            game_icon: self.game_icon@,
            game_name: self.game_name@,
            category_name: self.category_name@,
            offset: self.offset,
            attempt_count: self.attempt_count,
            segments: segment_models(self.segments@),
            custom_comparisons: string_views(self.custom_comparisons@),
            attempt_history: self.attempt_history@,
            metadata: self.metadata.model(),
        }
    }

    pub fn new() -> (r: Run)
        ensures
            r.model() == empty_run(),
            r.game_icon@.len() == 0,
            r.game_name@ == Seq::<char>::empty(),
            r.category_name@ == Seq::<char>::empty(),
            r.offset.nanos == 0,
            r.attempt_count == 0,
            r.segments@.len() == 0,
            r.custom_comparisons@.len() == 0,
            r.attempt_history@.len() == 0,
            r.path is None,
    {
        let r = Run {
            game_icon: Vec::new(),
            game_name: String::new(),
            category_name: String::new(),
            offset: TimeSpan { nanos: 0 },
            attempt_count: 0,
            segments: Vec::new(),
            custom_comparisons: Vec::new(),
            attempt_history: Vec::new(),
            metadata: Metadata::new(),
            path: None,
        };
        assert(r.model().game_icon =~= Seq::<u8>::empty());
        assert(r.model().game_name =~= Seq::<char>::empty());
        assert(r.model().category_name =~= Seq::<char>::empty());
        assert(r.model().segments =~= Seq::<SegmentModel>::empty());
        assert(r.model().custom_comparisons =~= Seq::<Seq<char>>::empty());
        assert(r.model().attempt_history =~= Seq::<Attempt>::empty());
        r
    }
}

} // verus!
