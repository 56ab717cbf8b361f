use vstd::prelude::*;

use crate::event::{Event, UNIT};

verus! {

/// A point on the screen along a curve.
///
/// Coordinates are normalized over `UNIT`, like event coordinates.
#[derive(Debug, Copy, Clone, PartialEq, Eq, Structural)]
pub struct Point {
    /// The position of the cursor on the horizontal axis.
    pub x: u32,
    /// The position of the cursor on the vertical axis.
    pub y: u32,
    /// Whether the pen is touching the screen at this point.
    pub touch: bool,
}

/// Trait for parametric curves.
pub trait Trace {
    /// The points this curve yields at the parameter `t`, given over
    /// `UNIT`: `0` is the start of the path and `UNIT` its end.
    spec fn points_at(&self, t: u32) -> Seq<Point>;

    /// Get the points along this path at the given time.
    ///
    /// The minimum value for the time is `0`, at the start of the path,
    /// and the maximum is `UNIT`, at the end. The points are appended to
    /// `buffer` and their number is returned; zero points mean the trace
    /// has no data for this time.
    fn get(&self, t: u32, buffer: &mut Vec<Point>) -> (n: usize)
        ensures
            final(buffer)@ == old(buffer)@ + self.points_at(t),
            n == self.points_at(t).len(),
    ;
}

/// Trait for structures that can produce a [`Trace`].
pub trait IntoTrace {
    /// Type of trace that will be generated.
    type Trace: Trace;

    /// The curve of this structure: the points its trace yields at each
    /// parameter.
    spec fn curve_at(&self, t: u32) -> Seq<Point>;

    /// Generate a tracing along the curve in this structure.
    fn trace(&self) -> (r: Self::Trace)
        ensures
            forall|t: u32| #[trigger] r.points_at(t) == self.curve_at(t),
    ;
}

/// Whether the timestamps of `s` are strictly increasing.
pub open spec fn times_sorted(s: Seq<Event>) -> bool {
    forall|i: int, j: int| 0 <= i < j < s.len() ==> s[i].spec_time() < s[j].spec_time()
}

/// The ordered sequence `s` with `e` inserted by its timestamp; an event
/// that shares its timestamp with an entry replaces that entry.
pub open spec fn insert_event(s: Seq<Event>, e: Event) -> Seq<Event>
    decreases s.len(),
{
    if s.len() == 0 {
        seq![e]
    } else if s[0].spec_time() < e.spec_time() {
        seq![s[0]] + insert_event(s.skip(1), e)
    } else if s[0].spec_time() == e.spec_time() {
        seq![e] + s.skip(1)
    } else {
        seq![e] + s
    }
}

/// The entry of `s` that inserting `e` replaces, if any: the one that
/// shares its timestamp.
pub open spec fn replaced_event(s: Seq<Event>, e: Event) -> Option<Event>
    decreases s.len(),
{
    if s.len() == 0 {
        None
    } else if s[0].spec_time() < e.spec_time() {
        replaced_event(s.skip(1), e)
    } else if s[0].spec_time() == e.spec_time() {
        Some(s[0])
    } else {
        None
    }
}

/// Where the first `idx` entries come before `e` and entry `idx`, if
/// there is one, does not, inserting `e` splices it in at `idx`.
proof fn lemma_insert_at(s: Seq<Event>, e: Event, idx: int)
    requires
        0 <= idx <= s.len(),
        forall|i: int| 0 <= i < idx ==> s[i].spec_time() < e.spec_time(),
        idx < s.len() ==> s[idx].spec_time() >= e.spec_time(),
    ensures
        insert_event(s, e) == if idx < s.len() && s[idx].spec_time() == e.spec_time() {
            s.take(idx) + seq![e] + s.skip(idx + 1)
        } else {
            s.take(idx) + seq![e] + s.skip(idx)
        },
        replaced_event(s, e) == if idx < s.len() && s[idx].spec_time() == e.spec_time() {
            Some(s[idx])
        } else {
            None::<Event>
        },
    decreases idx,
{
    if idx == 0 {
        if s.len() == 0 {
            assert(insert_event(s, e) =~= s.take(0) + seq![e] + s.skip(0));
        } else if s[0].spec_time() == e.spec_time() {
            assert(insert_event(s, e) =~= s.take(0) + seq![e] + s.skip(1));
        } else {
            assert(insert_event(s, e) =~= s.take(0) + seq![e] + s.skip(0));
        }
    } else {
        let rest = s.skip(1);
        lemma_insert_at(rest, e, idx - 1);
        assert(forall|i: int| 0 <= i < idx - 1 ==> rest[i] == s[i + 1]);
        if idx < s.len() && s[idx].spec_time() == e.spec_time() {
            assert(rest[idx - 1] == s[idx]);
            assert(insert_event(s, e) =~= s.take(idx) + seq![e] + s.skip(idx + 1)) by {
                assert(insert_event(s, e) == seq![s[0]] + insert_event(rest, e));
                assert(insert_event(rest, e) == rest.take(idx - 1) + seq![e] + rest.skip(idx));
            }
        } else {
            assert(insert_event(s, e) =~= s.take(idx) + seq![e] + s.skip(idx)) by {
                assert(insert_event(s, e) == seq![s[0]] + insert_event(rest, e));
                assert(insert_event(rest, e) == rest.take(idx - 1) + seq![e] + rest.skip(idx - 1));
            }
        }
    }
}

/// A structure for generating paths from events.
///
/// The path keeps its events ordered by the time in which they happened
/// and were reported by the underlying device, one entry per timestamp.
#[derive(Debug, Clone, PartialEq)]
pub struct EventPath {
    /// The events of this path, sorted by timestamp, strictly ascending.
    events: Vec<Event>,
}

impl View for EventPath {
    type V = Seq<Event>;

    closed spec fn view(&self) -> Seq<Event> {
        self.events@
    }
}

impl EventPath {
    /// Well-formedness: the events are strictly ordered by their
    /// timestamps, so each timestamp appears at most once.
    pub open spec fn wf(self) -> bool {
        times_sorted(self@)
    }

    /// Creates a new, empty path.
    pub fn new() -> (r: EventPath)
        ensures
            r.wf(),
            r@ == Seq::<Event>::empty(),
    {
        EventPath { events: Vec::new() }
    }

    /// Inserts a new event into this path.
    ///
    /// If this path had already registered an event that happened at the
    /// same time as the given event, this event will replace it in the
    /// path and this function will return the event that was replaced.
    pub fn process(&mut self, event: Event) -> (r: Option<Event>)
        requires
            old(self).wf(),
        ensures
            final(self).wf(),
            final(self)@ == insert_event(old(self)@, event),
            r == replaced_event(old(self)@, event),
    {
        let n = self.events.len();
        let mut idx: usize = 0;
        while idx < n && self.events[idx].time() < event.time()
            invariant
                idx <= n,
                n == self.events@.len(),
                self == old(self),
                forall|i: int| 0 <= i < idx ==> self.events@[i].spec_time() < event.spec_time(),
            decreases n - idx,
        {
            idx = idx + 1;
        }
        proof {
            lemma_insert_at(self.events@, event, idx as int);
        }
        let ghost prev = self.events@;
        if idx < n && self.events[idx].time() == event.time() {
            let replaced = self.events[idx];
            self.events[idx] = event;
            proof {
                assert(self.events@ =~= prev.take(idx as int) + seq![event] + prev.skip(
                    idx as int + 1,
                ));
                lemma_splice_sorted(prev, event, idx as int, true);
            }
            Some(replaced)
        } else {
            self.events.insert(idx, event);
            proof {
                assert(self.events@ =~= prev.take(idx as int) + seq![event] + prev.skip(
                    idx as int,
                ));
                lemma_splice_sorted(prev, event, idx as int, false);
            }
            None
        }
    }

    /// A deep copy of this path, so a playback can run against a frozen
    /// snapshot while the live path keeps accumulating.
    pub fn duplicate(&self) -> (r: EventPath)
        ensures
            r@ == self@,
    {
        let len = self.events.len();
        let mut events: Vec<Event> = Vec::new();
        let mut i: usize = 0;
        while i < len
            invariant
                i <= len,
                len == self.events@.len(),
                events@ =~= self.events@.take(i as int),
            decreases len - i,
        {
            events.push(self.events[i]);
            i = i + 1;
            assert(events@ =~= self.events@.take(i as int));
        }
        assert(events@ =~= self.events@);
        EventPath { events }
    }

    /// Clears all of the events in this path.
    pub fn clear(&mut self)
        ensures
            final(self).wf(),
            final(self)@ == Seq::<Event>::empty(),
    {
        self.events.clear()
    }
}

/// Splicing an event into a sorted sequence at the index where its
/// timestamp belongs keeps the sequence sorted.
proof fn lemma_splice_sorted(s: Seq<Event>, e: Event, idx: int, replace: bool)
    requires
        times_sorted(s),
        0 <= idx <= s.len(),
        forall|i: int| 0 <= i < idx ==> s[i].spec_time() < e.spec_time(),
        replace ==> idx < s.len() && s[idx].spec_time() == e.spec_time(),
        !replace && idx < s.len() ==> s[idx].spec_time() > e.spec_time(),
    ensures
        replace ==> times_sorted(s.take(idx) + seq![e] + s.skip(idx + 1)),
        !replace ==> times_sorted(s.take(idx) + seq![e] + s.skip(idx)),
{
    if replace {
        let r = s.take(idx) + seq![e] + s.skip(idx + 1);
        assert forall|i: int, j: int| 0 <= i < j < r.len() implies r[i].spec_time()
            < r[j].spec_time() by {
            assert(r.len() == s.len());
            if i < idx {
                assert(r[i] == s[i]);
            }
            if j < idx {
                assert(r[j] == s[j]);
            }
            if i > idx {
                assert(r[i] == s[i]);
            }
            if j > idx {
                assert(r[j] == s[j]);
            }
        }
    } else {
        let r = s.take(idx) + seq![e] + s.skip(idx);
        assert forall|i: int, j: int| 0 <= i < j < r.len() implies r[i].spec_time()
            < r[j].spec_time() by {
            assert(r.len() == s.len() + 1);
            if i < idx {
                assert(r[i] == s[i]);
            }
            if j < idx {
                assert(r[j] == s[j]);
            }
            if i > idx {
                assert(r[i] == s[i - 1]);
            }
            if j > idx {
                assert(r[j] == s[j - 1]);
            }
        }
    }
}

/// Linear interpolation between `a` and `b` with the fraction `f` over
/// `UNIT`, rounded to the nearest value.
pub open spec fn lerp(f: int, a: u32, b: u32) -> int
    recommends
        0 <= f <= UNIT,
{
    ((UNIT - f) * a + f * b + (UNIT as int) / 2) / (UNIT as int)
}

/// The interpolated value stays between its two endpoints.
proof fn lemma_lerp_between(f: int, a: u32, b: u32)
    requires
        0 <= f <= UNIT,
    ensures
        crate::canvas::min_of(a as int, b as int) <= lerp(f, a, b) <= crate::canvas::max_of(
            a as int,
            b as int,
        ),
{
    let u = UNIT as int;
    let lo = crate::canvas::min_of(a as int, b as int);
    let hi = crate::canvas::max_of(a as int, b as int);
    let p = (u - f) * a + f * b;
    assert(lo * u <= p && p <= hi * u) by (nonlinear_arith)
        requires
            0 <= f <= u,
            lo <= a <= hi,
            lo <= b <= hi,
            p == (u - f) * a + f * b,
    ;
    vstd::arithmetic::div_mod::lemma_div_is_ordered(lo * u + u / 2, p + u / 2, u);
    vstd::arithmetic::div_mod::lemma_div_is_ordered(p + u / 2, hi * u + u / 2, u);
    vstd::arithmetic::div_mod::lemma_fundamental_div_mod_converse(lo * u + u / 2, u, lo, u / 2);
    vstd::arithmetic::div_mod::lemma_fundamental_div_mod_converse(hi * u + u / 2, u, hi, u / 2);
}

/// The points that the ordered samples `s` yield at the parameter `t`
/// (over `UNIT`, clamped into the range).
///
/// The parameter indexes the position in the ordered sample array, not
/// physical elapsed time: `t` maps onto `t * (len - 1)`, whose whole part
/// selects two neighboring samples and whose fraction interpolates their
/// coordinates linearly; the touch flag of the lower-indexed sample is
/// carried unchanged. No sample yields no points; a single sample yields
/// itself for every parameter.
pub open spec fn sample_curve(s: Seq<Event>, t: u32) -> Seq<Point> {
    if s.len() == 0 {
        Seq::empty()
    } else if s.len() == 1 {
        seq![Point { x: s[0].spec_x(), y: s[0].spec_y(), touch: s[0].spec_touching() }]
    } else {
        let tc: int = if t > UNIT {
            UNIT as int
        } else {
            t as int
        };
        let scaled = tc * (s.len() - 1);
        let i = scaled / (UNIT as int);
        let f = scaled % (UNIT as int);
        let j = if f == 0 {
            i
        } else {
            i + 1
        };
        seq![
            Point {
                x: lerp(f, s[i].spec_x(), s[j].spec_x()) as u32,
                y: lerp(f, s[i].spec_y(), s[j].spec_y()) as u32,
                touch: s[i].spec_touching(),
            },
        ]
    }
}

/// A tracing along a path generated by [`EventPath`].
///
/// The trace owns a frozen snapshot of the path's samples, so a replay
/// can run against it while the live path keeps accumulating.
#[derive(Debug, Clone, PartialEq)]
pub struct EventTrace {
    /// The events of the traced path, sorted by the time they happened.
    /// This is a list rather than another kind of sorted container
    /// because it allows for uniform access to its elements, which avoids
    /// the clustering of events.
    events: Vec<Event>,
}

impl View for EventTrace {
    type V = Seq<Event>;

    closed spec fn view(&self) -> Seq<Event> {
        self.events@
    }
}

impl Trace for EventTrace {
    open spec fn points_at(&self, t: u32) -> Seq<Point> {
        sample_curve(self@, t)
    }

    fn get(&self, t: u32, buffer: &mut Vec<Point>) -> (n: usize) {
        let len = self.events.len();
        if len == 0 {
            assert(buffer@ =~= old(buffer)@ + self.points_at(t));
            return 0;
        }
        if len == 1 {
            let e = self.events[0];
            buffer.push(Point { x: e.x(), y: e.y(), touch: e.touching() });
            assert(buffer@ =~= old(buffer)@ + self.points_at(t));
            return 1;
        }
        let tc: u32 = if t > UNIT {
            UNIT
        } else {
            t
        };
        proof {
            lemma_index_fraction(self.events@.len() as int, tc);
            crate::canvas::lemma_mul_le(tc as int, (len - 1) as int, UNIT as int, usize::MAX as int);
        }
        let scaled: u128 = (tc as u128) * ((len - 1) as u128);
        let i: usize = (scaled / (UNIT as u128)) as usize;
        let f: u32 = (scaled % (UNIT as u128)) as u32;
        let j: usize = if f == 0 {
            i
        } else {
            i + 1
        };
        let a = self.events[i];
        let b = self.events[j];
        let x = lerp_exec(f, a.x(), b.x());
        let y = lerp_exec(f, a.y(), b.y());
        buffer.push(Point { x, y, touch: a.touching() });
        assert(buffer@ =~= old(buffer)@ + self.points_at(t));
        1
    }
}

/// The whole and fractional split of `t * (len - 1)` lands on valid
/// neighboring sample indexes.
proof fn lemma_index_fraction(len: int, tc: u32)
    requires
        len >= 2,
        tc <= UNIT,
    ensures
        0 <= (tc as int) * (len - 1) / (UNIT as int) <= len - 1,
        0 <= (tc as int) * (len - 1) % (UNIT as int) < UNIT,
        (tc as int) * (len - 1) % (UNIT as int) != 0 ==> (tc as int) * (len - 1) / (UNIT as int)
            < len - 1,
{
    let u = UNIT as int;
    let scaled = (tc as int) * (len - 1);
    assert(0 <= scaled <= u * (len - 1)) by (nonlinear_arith)
        requires
            0 <= tc <= u,
            len >= 2,
            scaled == (tc as int) * (len - 1),
    ;
    vstd::arithmetic::div_mod::lemma_mod_bound(scaled, u);
    vstd::arithmetic::div_mod::lemma_div_is_ordered(0, scaled, u);
    vstd::arithmetic::div_mod::lemma_div_is_ordered(scaled, u * (len - 1), u);
    assert(u * (len - 1) == (len - 1) * u + 0) by (nonlinear_arith);
    vstd::arithmetic::div_mod::lemma_fundamental_div_mod_converse(u * (len - 1), u, len - 1, 0);
    if scaled % u != 0 {
        vstd::arithmetic::div_mod::lemma_fundamental_div_mod(scaled, u);
        if scaled / u == len - 1 {
            assert(scaled == u * (len - 1) + scaled % u);
            assert(scaled > u * (len - 1));
            assert(tc as int > u) by (nonlinear_arith)
                requires
                    scaled == (tc as int) * (len - 1),
                    scaled > u * (len - 1),
                    len >= 2,
                    u >= 1,
            ;
        }
    }
}

/// Linear interpolation between `a` and `b` with the fraction `f` over
/// `UNIT`, rounded to the nearest value.
fn lerp_exec(f: u32, a: u32, b: u32) -> (r: u32)
    requires
        f < UNIT,
        a <= UNIT,
        b <= UNIT,
    ensures
        r == lerp(f as int, a, b),
        r <= UNIT,
{
    proof {
        crate::canvas::lemma_mul_le((UNIT - f) as int, a as int, UNIT as int, UNIT as int);
        crate::canvas::lemma_mul_le(f as int, b as int, UNIT as int, UNIT as int);
        lemma_lerp_between(f as int, a, b);
    }
    let num: u64 = ((UNIT - f) as u64) * (a as u64) + (f as u64) * (b as u64) + (UNIT as u64) / 2;
    (num / (UNIT as u64)) as u32
}

impl IntoTrace for EventPath {
    type Trace = EventTrace;

    open spec fn curve_at(&self, t: u32) -> Seq<Point> {
        sample_curve(self@, t)
    }

    fn trace(&self) -> (r: EventTrace) {
        let len = self.events.len();
        let mut events: Vec<Event> = Vec::new();
        let mut i: usize = 0;
        while i < len
            invariant
                i <= len,
                len == self.events@.len(),
                events@ =~= self.events@.take(i as int),
            decreases len - i,
        {
            events.push(self.events[i]);
            i = i + 1;
            assert(events@ =~= self.events@.take(i as int));
        }
        assert(events@ =~= self.events@);
        EventTrace { events }
    }
}

/// The event of `s` that carries timestamp `t`, if any: the first one,
/// which in a well-formed path is the only one.
pub open spec fn event_at_time(s: Seq<Event>, t: u64) -> Option<Event>
    decreases s.len(),
{
    if s.len() == 0 {
        None
    } else if s[0].spec_time() == t {
        Some(s[0])
    } else {
        event_at_time(s.skip(1), t)
    }
}

/// Inserting resolves timestamp collisions deterministically: afterwards
/// the entry at the inserted event's timestamp is that event itself —
/// the last write wins — and every other timestamp keeps its entry.
pub proof fn lemma_insert_last_wins(s: Seq<Event>, e: Event, t: u64)
    ensures
        event_at_time(insert_event(s, e), e.spec_time()) == Some(e),
        t != e.spec_time() ==> event_at_time(insert_event(s, e), t) == event_at_time(s, t),
    decreases s.len(),
{
    let ins = insert_event(s, e);
    if s.len() == 0 {
        assert(ins == seq![e]);
        assert(ins[0] == e && ins.skip(1) =~= Seq::<Event>::empty());
        if t != e.spec_time() {
            assert(event_at_time(ins, t) == event_at_time(ins.skip(1), t));
            assert(event_at_time(ins, t) == None::<Event>);
        }
    } else if s[0].spec_time() < e.spec_time() {
        let rest = s.skip(1);
        lemma_insert_last_wins(rest, e, t);
        assert(ins == seq![s[0]] + insert_event(rest, e));
        assert(ins[0] == s[0] && ins.len() > 0);
        assert(ins.skip(1) =~= insert_event(rest, e));
        assert(event_at_time(ins, e.spec_time()) == event_at_time(insert_event(rest, e), e.spec_time()));
        if t != e.spec_time() {
            if s[0].spec_time() == t {
                assert(event_at_time(ins, t) == Some(s[0]));
                assert(event_at_time(s, t) == Some(s[0]));
            } else {
                assert(event_at_time(ins, t) == event_at_time(insert_event(rest, e), t));
                assert(event_at_time(s, t) == event_at_time(rest, t));
            }
        }
    } else if s[0].spec_time() == e.spec_time() {
        assert(ins == seq![e] + s.skip(1));
        assert(ins[0] == e && ins.len() > 0);
        assert(ins.skip(1) =~= s.skip(1));
        if t != e.spec_time() {
            assert(event_at_time(ins, t) == event_at_time(s.skip(1), t));
            assert(event_at_time(s, t) == event_at_time(s.skip(1), t));
        }
    } else {
        assert(ins == seq![e] + s);
        assert(ins[0] == e && ins.len() > 0);
        assert(ins.skip(1) =~= s);
        if t != e.spec_time() {
            assert(event_at_time(ins, t) == event_at_time(s, t));
        }
    }
}

/// A sample-trace built from zero samples yields zero points, for every
/// parameter.
pub proof fn lemma_trace_of_no_samples(s: Seq<Event>, t: u32)
    requires
        s.len() == 0,
    ensures
        sample_curve(s, t).len() == 0,
{
}

/// A sample-trace built from exactly one sample yields that sample's
/// coordinates and touch flag, for every parameter.
pub proof fn lemma_trace_of_one_sample(s: Seq<Event>, t: u32)
    requires
        s.len() == 1,
    ensures
        sample_curve(s, t) == seq![
            Point { x: s[0].spec_x(), y: s[0].spec_y(), touch: s[0].spec_touching() },
        ],
{
}

impl Default for EventPath {
    /// An empty path.
    fn default() -> (r: EventPath)
        ensures
            r.wf(),
            r@ == Seq::<Event>::empty(),
    {
        EventPath::new()
    }
}

} // verus!
