//! Reconstruction of per-task schedules from a complete list of canonical
//! events: busy intervals between switch-in and switch-out, point markers,
//! and the orderings of task and queue ids.

use vstd::prelude::*;

use crate::event::{EventView, GeneralEventData, is_queue_tag, text_eq};

verus! {

/// A span of ticks during which a task was the one running.
#[derive(Debug, Clone, Copy, PartialEq, Eq, Structural)]
pub struct BusyInterval {
    pub task_id: u32,
    pub start_tick: u32,
    pub end_tick: u32,
}

/// A point event on a task's line of the schedule.
#[derive(Debug, Clone, PartialEq, Eq)]
pub enum Marker {
    /// The task delayed itself until the tick `until`.
    DelayUntil { until: u32 },
    /// The task delayed itself; `delay` is the event's delay field.
    Delay { delay: u32 },
    /// The task received from the queue at `queue_index` of the queue ordering.
    QueueReceive { tick: u32, queue_index: usize },
    /// The task sent to the queue at `queue_index` of the queue ordering.
    QueueSend { tick: u32, queue_index: usize },
    /// The task named `by` created task `task`, found at `task_index` of the
    /// task ordering if it is one of the traced tasks.
    Create { tick: u32, task: u32, task_index: Option<usize>, by: String },
    /// The task named `by` deleted task `task`, found at `task_index` of the
    /// task ordering if it is one of the traced tasks.
    Delete { tick: u32, task: u32, task_index: Option<usize>, by: String },
}

/// The mathematical value of a marker: the name as a character sequence.
pub enum MarkerView {
    DelayUntil { until: u32 },
    Delay { delay: u32 },
    QueueReceive { tick: u32, queue_index: usize },
    QueueSend { tick: u32, queue_index: usize },
    Create { tick: u32, task: u32, task_index: Option<usize>, by: Seq<char> },
    Delete { tick: u32, task: u32, task_index: Option<usize>, by: Seq<char> },
}

impl View for Marker {
    type V = MarkerView;

    open spec fn view(&self) -> MarkerView {
        match self {
            Marker::DelayUntil { until } => MarkerView::DelayUntil { until: *until },
            Marker::Delay { delay } => MarkerView::Delay { delay: *delay },
            Marker::QueueReceive { tick, queue_index } => MarkerView::QueueReceive {
                tick: *tick,
                queue_index: *queue_index,
            },
            Marker::QueueSend { tick, queue_index } => MarkerView::QueueSend {
                tick: *tick,
                queue_index: *queue_index,
            },
            Marker::Create { tick, task, task_index, by } => MarkerView::Create {
                tick: *tick,
                task: *task,
                task_index: *task_index,
                by: by@,
            },
            Marker::Delete { tick, task, task_index, by } => MarkerView::Delete {
                tick: *tick,
                task: *task,
                task_index: *task_index,
                by: by@,
            },
        }
    }
}

/// The values of a list of markers.
pub open spec fn marker_views(m: Seq<Marker>) -> Seq<MarkerView> {
    m.map_values(|x: Marker| x@)
}

proof fn lemma_marker_views_push(m: Seq<Marker>, x: Marker)
    ensures
        marker_views(m.push(x)) == marker_views(m).push(x@),
{
    assert(marker_views(m.push(x)) =~= marker_views(m).push(x@));
}

/// The tags that the reconstruction acts on.
#[derive(Debug, Clone, Copy, PartialEq, Eq, Structural)]
pub enum ScheduleTag {
    SwitchedIn,
    SwitchedOut,
    DelayUntil,
    Delay,
    QueueReceive,
    QueueSend,
    Create,
    Delete,
    Other,
}

/// How the reconstruction reads an event tag.
pub open spec fn schedule_tag(t: Seq<char>) -> ScheduleTag {
    if t == "traceTASK_SWITCHED_IN"@ {
        ScheduleTag::SwitchedIn
    } else if t == "traceTASK_SWITCHED_OUT"@ {
        ScheduleTag::SwitchedOut
    } else if t == "traceTASK_DELAY_UNTIL"@ {
        ScheduleTag::DelayUntil
    } else if t == "traceTASK_DELAY"@ {
        ScheduleTag::Delay
    } else if t == "traceQUEUE_RECEIVE"@ {
        ScheduleTag::QueueReceive
    } else if t == "traceQUEUE_SEND"@ {
        ScheduleTag::QueueSend
    } else if t == "traceTASK_CREATE"@ {
        ScheduleTag::Create
    } else if t == "traceTASK_DELETE"@ {
        ScheduleTag::Delete
    } else {
        ScheduleTag::Other
    }
}

fn tag_of(e: &GeneralEventData) -> (r: ScheduleTag)
    ensures
        r == schedule_tag(e@.tag),
{
    let t = e.eventtype.as_str();
    if text_eq(t, "traceTASK_SWITCHED_IN") {
        ScheduleTag::SwitchedIn
    } else if text_eq(t, "traceTASK_SWITCHED_OUT") {
        ScheduleTag::SwitchedOut
    } else if text_eq(t, "traceTASK_DELAY_UNTIL") {
        ScheduleTag::DelayUntil
    } else if text_eq(t, "traceTASK_DELAY") {
        ScheduleTag::Delay
    } else if text_eq(t, "traceQUEUE_RECEIVE") {
        ScheduleTag::QueueReceive
    } else if text_eq(t, "traceQUEUE_SEND") {
        ScheduleTag::QueueSend
    } else if text_eq(t, "traceTASK_CREATE") {
        ScheduleTag::Create
    } else if text_eq(t, "traceTASK_DELETE") {
        ScheduleTag::Delete
    } else {
        ScheduleTag::Other
    }
}

/// The values of a list of canonical events.
pub open spec fn views(s: Seq<GeneralEventData>) -> Seq<EventView> {
    s.map_values(|e: GeneralEventData| e@)
}

/// The events of task `id`, in their order in `s`.
pub open spec fn of_task(s: Seq<EventView>, id: u32) -> Seq<EventView>
    decreases s.len(),
{
    if s.len() == 0 {
        s
    } else if s.last().taskid == id {
        of_task(s.drop_last(), id).push(s.last())
    } else {
        of_task(s.drop_last(), id)
    }
}

/// Whether `a` sorts after `b`: a later tick, or the same tick and a later
/// timestamp.
pub open spec fn comes_after(a: EventView, b: EventView) -> bool {
    a.tick > b.tick || (a.tick == b.tick && a.timestamp > b.timestamp)
}

/// `e` placed into the ordered list `s` behind every event that does not
/// sort after it.
pub open spec fn insert_ordered(s: Seq<EventView>, e: EventView) -> Seq<EventView>
    decreases s.len(),
{
    if s.len() == 0 || !comes_after(s.last(), e) {
        s.push(e)
    } else {
        insert_ordered(s.drop_last(), e).push(s.last())
    }
}

/// The events ordered by tick, then timestamp, then their order in `s`.
pub open spec fn tick_order(s: Seq<EventView>) -> Seq<EventView>
    decreases s.len(),
{
    if s.len() == 0 {
        s
    } else {
        insert_ordered(tick_order(s.drop_last()), s.last())
    }
}

/// The first position of `x` in `s`.
pub open spec fn position_of(s: Seq<u32>, x: u32) -> Option<int>
    decreases s.len(),
{
    if s.len() == 0 {
        None
    } else if s[0] == x {
        Some(0)
    } else {
        match position_of(s.drop_first(), x) {
            Some(i) => Some(i + 1),
            None => None,
        }
    }
}

proof fn lemma_position_bounds(s: Seq<u32>, x: u32)
    ensures
        position_of(s, x) matches Some(i) ==> 0 <= i < s.len() && s[i] == x,
        position_of(s, x) is None <==> !s.contains(x),
    decreases s.len(),
{
    if s.len() > 0 {
        lemma_position_bounds(s.drop_first(), x);
        if s[0] != x {
            if s.contains(x) {
                let k = choose|k: int| 0 <= k < s.len() && s[k] == x;
                assert(s.drop_first()[k - 1] == x);
            }
            if s.drop_first().contains(x) {
                let k = choose|k: int| 0 <= k < s.len() - 1 && s.drop_first()[k] == x;
                assert(s[k + 1] == x);
            }
        }
    }
}

/// The first position of `x` in `s`, if it occurs.
pub fn position_in(s: &[u32], x: u32) -> (r: Option<usize>)
    ensures
        match r {
            Some(i) => position_of(s@, x) == Some(i as int),
            None => position_of(s@, x) == None::<int>,
        },
{
    let mut i: usize = 0;
    assert(s@.skip(0) =~= s@);
    while i < s.len()
        invariant
            0 <= i <= s@.len(),
            position_of(s@, x) == match position_of(s@.skip(i as int), x) {
                Some(k) => Some(k + i),
                None => None::<int>,
            },
        decreases s@.len() - i,
    {
        if s[i] == x {
            return Some(i);
        }
        assert(s@.skip(i as int).drop_first() =~= s@.skip(i + 1));
        i += 1;
    }
    None
}

proof fn lemma_insert_at(s: Seq<EventView>, e: EventView, j: int)
    requires
        0 <= j <= s.len(),
        forall|k: int| j <= k < s.len() ==> comes_after(#[trigger] s[k], e),
        j == 0 || !comes_after(s[j - 1], e),
    ensures
        insert_ordered(s, e) == s.take(j).push(e) + s.skip(j),
    decreases s.len() - j,
{
    if j == s.len() {
        assert(s.take(j) =~= s);
        assert(s.take(j).push(e) + s.skip(j) =~= s.push(e));
    } else {
        lemma_insert_at(s.drop_last(), e, j);
        assert(s.drop_last().take(j) =~= s.take(j));
        assert(s.take(j).push(e) + s.skip(j) =~= (s.take(j).push(e) + s.drop_last().skip(j)).push(
            s.last(),
        ));
    }
}

/// Places `e` into the ordered list `v` behind every event that does not
/// sort after it.
fn insert_in_order(v: &mut Vec<GeneralEventData>, e: GeneralEventData)
    ensures
        views(final(v)@) == insert_ordered(views(old(v)@), e@),
{
    let ghost s = views(v@);
    let mut j: usize = v.len();
    while j > 0 && (v[j - 1].tick > e.tick || (v[j - 1].tick == e.tick && v[j - 1].timestamp
        > e.timestamp))
        invariant
            0 <= j <= v@.len(),
            s == views(v@),
            forall|k: int| j <= k < s.len() ==> comes_after(#[trigger] s[k], e@),
        decreases j,
    {
        j -= 1;
    }
    proof {
        lemma_insert_at(s, e@, j as int);
    }
    let ghost ev = e@;
    v.insert(j, e);
    assert(views(v@) =~= s.take(j as int).push(ev) + s.skip(j as int));
}


/// The intervals closed so far and the tick of the switch-in still open,
/// after scanning `s` in order: a switch-in opens (replacing an open one
/// without an interval), a switch-out closes an open one into an interval and
/// is ignored when none is open.
pub open spec fn switch_scan(s: Seq<EventView>, task: u32) -> (Seq<BusyInterval>, Option<u32>)
    decreases s.len(),
{
    if s.len() == 0 {
        (Seq::empty(), None)
    } else {
        let (done, open) = switch_scan(s.drop_last(), task);
        let e = s.last();
        match schedule_tag(e.tag) {
            ScheduleTag::SwitchedIn => (done, Some(e.tick)),
            ScheduleTag::SwitchedOut => match open {
                Some(t) => (
                    done.push(BusyInterval { task_id: task, start_tick: t, end_tick: e.tick }),
                    None,
                ),
                None => (done, None),
            },
            _ => (done, open),
        }
    }
}

/// The largest tick in `s` (0 for no events).
pub open spec fn max_tick(s: Seq<EventView>) -> u32
    decreases s.len(),
{
    if s.len() == 0 {
        0
    } else if s.last().tick > max_tick(s.drop_last()) {
        s.last().tick
    } else {
        max_tick(s.drop_last())
    }
}

/// The busy intervals of `task` from its events in scan order `s`; an
/// interval still open at the end is closed at the largest tick of `s`.
pub open spec fn busy_intervals_of(s: Seq<EventView>, task: u32) -> Seq<BusyInterval> {
    let (done, open) = switch_scan(s, task);
    match open {
        Some(t) => done.push(BusyInterval { task_id: task, start_tick: t, end_tick: max_tick(s) }),
        None => done,
    }
}

/// Computes the busy intervals of `task` from its events in scan order.
pub fn busy_intervals(task: u32, events: &[GeneralEventData]) -> (r: Vec<BusyInterval>)
    ensures
        r@ == busy_intervals_of(views(events@), task),
{
    let ghost s = views(events@);
    let mut done: Vec<BusyInterval> = Vec::new();
    let mut open: Option<u32> = None;
    let mut top: u32 = 0;
    let mut i: usize = 0;
    assert(s.take(0) =~= Seq::<EventView>::empty());
    while i < events.len()
        invariant
            0 <= i <= events@.len(),
            s == views(events@),
            (done@, open) == switch_scan(s.take(i as int), task),
            top == max_tick(s.take(i as int)),
        decreases events@.len() - i,
    {
        let e = &events[i];
        assert(s.take(i + 1).drop_last() =~= s.take(i as int));
        assert(s.take(i + 1).last() == e@);
        match tag_of(e) {
            ScheduleTag::SwitchedIn => {
                open = Some(e.tick);
            },
            ScheduleTag::SwitchedOut => {
                match open {
                    Some(t) => {
                        done.push(BusyInterval { task_id: task, start_tick: t, end_tick: e.tick });
                        open = None;
                    },
                    None => {},
                }
            },
            _ => {},
        }
        if e.tick > top {
            top = e.tick;
        }
        i += 1;
    }
    assert(s.take(events@.len() as int) =~= s);
    match open {
        Some(t) => {
            done.push(BusyInterval { task_id: task, start_tick: t, end_tick: top });
        },
        None => {},
    }
    done
}

/// The marker an event puts on its task's line, if any.
pub open spec fn marker_of(e: EventView, task_ids: Seq<u32>, queue_ids: Seq<u32>) -> Option<
    MarkerView,
> {
    match schedule_tag(e.tag) {
        ScheduleTag::DelayUntil => Some(MarkerView::DelayUntil { until: e.delay }),
        ScheduleTag::Delay => Some(MarkerView::Delay { delay: e.delay }),
        ScheduleTag::QueueReceive => match position_of(queue_ids, e.affected_object) {
            Some(q) => Some(MarkerView::QueueReceive { tick: e.tick, queue_index: q as usize }),
            None => None,
        },
        ScheduleTag::QueueSend => match position_of(queue_ids, e.affected_object) {
            Some(q) => Some(MarkerView::QueueSend { tick: e.tick, queue_index: q as usize }),
            None => None,
        },
        ScheduleTag::Create => Some(
            MarkerView::Create {
                tick: e.tick,
                task: e.affected_object,
                task_index: match position_of(task_ids, e.affected_object) {
                    Some(k) => Some(k as usize),
                    None => None,
                },
                by: e.task_name,
            },
        ),
        ScheduleTag::Delete => Some(
            MarkerView::Delete {
                tick: e.tick,
                task: e.affected_object,
                task_index: match position_of(task_ids, e.affected_object) {
                    Some(k) => Some(k as usize),
                    None => None,
                },
                by: e.task_name,
            },
        ),
        _ => None,
    }
}

/// The markers of the events `s`, in order.
pub open spec fn markers_of(s: Seq<EventView>, task_ids: Seq<u32>, queue_ids: Seq<u32>) -> Seq<
    MarkerView,
>
    decreases s.len(),
{
    if s.len() == 0 {
        Seq::empty()
    } else {
        match marker_of(s.last(), task_ids, queue_ids) {
            Some(m) => markers_of(s.drop_last(), task_ids, queue_ids).push(m),
            None => markers_of(s.drop_last(), task_ids, queue_ids),
        }
    }
}

/// Computes the markers of a task's events in scan order.
pub fn markers(events: &[GeneralEventData], task_ids: &[u32], queue_ids: &[u32]) -> (r: Vec<
    Marker,
>)
    ensures
        marker_views(r@) == markers_of(views(events@), task_ids@, queue_ids@),
{
    let ghost s = views(events@);
    let mut out: Vec<Marker> = Vec::new();
    let mut i: usize = 0;
    assert(s.take(0) =~= Seq::<EventView>::empty());
    while i < events.len()
        invariant
            0 <= i <= events@.len(),
            s == views(events@),
            marker_views(out@) == markers_of(s.take(i as int), task_ids@, queue_ids@),
        decreases events@.len() - i,
    {
        let e = &events[i];
        assert(s.take(i + 1).drop_last() =~= s.take(i as int));
        assert(s.take(i + 1).last() == e@);
        match tag_of(e) {
            ScheduleTag::DelayUntil => {
                let m = Marker::DelayUntil { until: e.delay };
                proof {
                    lemma_marker_views_push(out@, m);
                }
                out.push(m);
            },
            ScheduleTag::Delay => {
                let m = Marker::Delay { delay: e.delay };
                proof {
                    lemma_marker_views_push(out@, m);
                }
                out.push(m);
            },
            ScheduleTag::QueueReceive => {
                match position_in(queue_ids, e.affected_object) {
                    Some(q) => {
                        let m = Marker::QueueReceive { tick: e.tick, queue_index: q };
                        proof {
                            lemma_marker_views_push(out@, m);
                        }
                        out.push(m);
                    },
                    None => {},
                }
            },
            ScheduleTag::QueueSend => {
                match position_in(queue_ids, e.affected_object) {
                    Some(q) => {
                        let m = Marker::QueueSend { tick: e.tick, queue_index: q };
                        proof {
                            lemma_marker_views_push(out@, m);
                        }
                        out.push(m);
                    },
                    None => {},
                }
            },
            ScheduleTag::Create => {
                let k = position_in(task_ids, e.affected_object);
                let m = Marker::Create {
                    tick: e.tick,
                    task: e.affected_object,
                    task_index: k,
                    by: e.task_name.clone(),
                };
                proof {
                    lemma_marker_views_push(out@, m);
                }
                out.push(m);
            },
            ScheduleTag::Delete => {
                let k = position_in(task_ids, e.affected_object);
                let m = Marker::Delete {
                    tick: e.tick,
                    task: e.affected_object,
                    task_index: k,
                    by: e.task_name.clone(),
                };
                proof {
                    lemma_marker_views_push(out@, m);
                }
                out.push(m);
            },
            _ => {},
        }
        i += 1;
    }
    assert(s.take(events@.len() as int) =~= s);
    out
}


/// The queues that queue send and receive events touch, each once, in the
/// order they are first seen.
pub open spec fn first_seen_queues(s: Seq<EventView>) -> Seq<u32>
    decreases s.len(),
{
    if s.len() == 0 {
        Seq::empty()
    } else {
        let q = first_seen_queues(s.drop_last());
        if is_queue_tag(s.last().tag) && !q.contains(s.last().affected_object) {
            q.push(s.last().affected_object)
        } else {
            q
        }
    }
}

/// Collects the queue ids of the queue events, in first-seen order.
pub fn queue_order(data: &[GeneralEventData]) -> (r: Vec<u32>)
    ensures
        r@ == first_seen_queues(views(data@)),
{
    let ghost s = views(data@);
    let mut out: Vec<u32> = Vec::new();
    let mut i: usize = 0;
    assert(s.take(0) =~= Seq::<EventView>::empty());
    while i < data.len()
        invariant
            0 <= i <= data@.len(),
            s == views(data@),
            out@ == first_seen_queues(s.take(i as int)),
        decreases data@.len() - i,
    {
        let e = &data[i];
        assert(s.take(i + 1).drop_last() =~= s.take(i as int));
        assert(s.take(i + 1).last() == e@);
        if e.is_queue_event() {
            proof {
                lemma_position_bounds(out@, e.affected_object);
            }
            if position_in(out.as_slice(), e.affected_object).is_none() {
                out.push(e.affected_object);
            }
        }
        i += 1;
    }
    assert(s.take(data@.len() as int) =~= s);
    out
}

/// The queue ids of the queue send and receive events of `s`, in order,
/// repeats included.
pub open spec fn queue_objects(s: Seq<EventView>) -> Seq<u32>
    decreases s.len(),
{
    if s.len() == 0 {
        Seq::empty()
    } else if is_queue_tag(s.last().tag) {
        queue_objects(s.drop_last()).push(s.last().affected_object)
    } else {
        queue_objects(s.drop_last())
    }
}

/// Every occurrence of `b` in `q` comes after some occurrence of `a`: `a` is
/// first seen before `b`.
pub open spec fn seen_before(q: Seq<u32>, a: u32, b: u32) -> bool {
    forall|k: int|
        0 <= k < q.len() && #[trigger] q[k] == b ==> exists|m: int| 0 <= m < k && q[m] == a
}

/// The queue ordering holds each queue id of a queue event exactly once, no
/// other id, and in the order the ids are first seen.
pub proof fn lemma_queue_order(s: Seq<EventView>)
    ensures
        first_seen_queues(s).no_duplicates(),
        forall|x: u32| first_seen_queues(s).contains(x) <==> queue_objects(s).contains(x),
        forall|i: int, j: int|
            0 <= i < j < first_seen_queues(s).len() ==> seen_before(
                queue_objects(s),
                #[trigger] first_seen_queues(s)[i],
                #[trigger] first_seen_queues(s)[j],
            ),
    decreases s.len(),
{
    if s.len() > 0 {
        let p = s.drop_last();
        lemma_queue_order(p);
        let r0 = first_seen_queues(p);
        let q0 = queue_objects(p);
        let r = first_seen_queues(s);
        let q = queue_objects(s);
        let e = s.last();
        if is_queue_tag(e.tag) {
            let x = e.affected_object;
            assert(q == q0.push(x));
            assert forall|y: u32| r.contains(y) <==> q.contains(y) by {
                if r.contains(y) {
                    let k = choose|k: int| 0 <= k < r.len() && r[k] == y;
                    if k < r0.len() {
                        assert(r0[k] == y && r0.contains(y));
                        let m = choose|m: int| 0 <= m < q0.len() && q0[m] == y;
                        assert(q[m] == y);
                    } else {
                        assert(q[q0.len() as int] == y);
                    }
                }
                if q.contains(y) {
                    let k = choose|k: int| 0 <= k < q.len() && q[k] == y;
                    if k < q0.len() {
                        assert(q0[k] == y && q0.contains(y));
                        let m = choose|m: int| 0 <= m < r0.len() && r0[m] == y;
                        assert(r[m] == y);
                    } else if !r0.contains(x) {
                        assert(r[r0.len() as int] == y);
                    }
                }
            }
            assert forall|i: int, j: int| 0 <= i < j < r.len() implies seen_before(
                q,
                #[trigger] r[i],
                #[trigger] r[j],
            ) by {
                assert(r[i] == r0[i]);
                assert(r0.contains(r0[i]));
                let mi = choose|m: int| 0 <= m < q0.len() && q0[m] == r0[i];
                assert(q[mi] == r[i]);
                if j < r0.len() {
                    assert(seen_before(q0, r0[i], r0[j]));
                    assert forall|k: int| 0 <= k < q.len() && #[trigger] q[k] == r[j] implies exists|
                        m: int,
                    | 0 <= m < k && q[m] == r[i] by {
                        if k < q0.len() {
                            assert(q0[k] == r0[j]);
                            let m = choose|m: int| 0 <= m < k && q0[m] == r0[i];
                            assert(q[m] == r[i]);
                        } else {
                            assert(r0.contains(r0[j]));
                            let k2 = choose|k2: int| 0 <= k2 < q0.len() && q0[k2] == r0[j];
                            let m = choose|m: int| 0 <= m < k2 && q0[m] == r0[i];
                            assert(q[m] == r[i]);
                        }
                    }
                } else {
                    assert forall|k: int| 0 <= k < q.len() && #[trigger] q[k] == r[j] implies exists|
                        m: int,
                    | 0 <= m < k && q[m] == r[i] by {
                        if k < q0.len() {
                            assert(q0[k] == x && q0.contains(x));
                            assert(r0.contains(x));
                        }
                        assert(q[mi] == r[i]);
                    }
                }
            }
        } else {
            assert(q == q0 && r == r0);
        }
    }
}

/// Each id greater than the one before it.
pub open spec fn strictly_ascending(s: Seq<u32>) -> bool {
    forall|i: int, j: int| 0 <= i < j < s.len() ==> s[i] < s[j]
}

/// Whether some event of `s` belongs to task `id`.
pub open spec fn has_task(s: Seq<EventView>, id: u32) -> bool {
    exists|i: int| 0 <= i < s.len() && s[i].taskid == id
}

/// Adds `x` to an ascending list of ids unless it is there already.
fn insert_id(ids: &mut Vec<u32>, x: u32)
    requires
        strictly_ascending(old(ids)@),
    ensures
        strictly_ascending(final(ids)@),
        forall|y: u32| #[trigger] final(ids)@.contains(y) <==> (old(ids)@.contains(y) || y == x),
{
    let mut p: usize = 0;
    while p < ids.len() && ids[p] < x
        invariant
            ids@ == old(ids)@,
            0 <= p <= ids@.len(),
            forall|k: int| 0 <= k < p ==> ids@[k] < x,
        decreases ids@.len() - p,
    {
        p += 1;
    }
    if p < ids.len() && ids[p] == x {
        assert(ids@[p as int] == x);
        return;
    }
    let ghost before = ids@;
    ids.insert(p, x);
    assert forall|y: u32| #[trigger] ids@.contains(y) <==> (before.contains(y) || y == x) by {
        if ids@.contains(y) {
            let k = choose|k: int| 0 <= k < ids@.len() && ids@[k] == y;
            if k < p {
                assert(before[k] == y);
            } else if k > p {
                assert(before[k - 1] == y);
            }
        }
        if before.contains(y) {
            let k = choose|k: int| 0 <= k < before.len() && before[k] == y;
            if k < p {
                assert(ids@[k] == y);
            } else {
                assert(ids@[k + 1] == y);
            }
        }
        if y == x {
            assert(ids@[p as int] == y);
        }
    }
    assert(strictly_ascending(ids@));
}

/// Collects the task ids of the events, each once, ascending.
pub fn task_order(data: &[GeneralEventData]) -> (r: Vec<u32>)
    ensures
        strictly_ascending(r@),
        forall|id: u32| r@.contains(id) <==> has_task(views(data@), id),
{
    let ghost s = views(data@);
    let mut ids: Vec<u32> = Vec::new();
    let mut i: usize = 0;
    while i < data.len()
        invariant
            0 <= i <= data@.len(),
            s == views(data@),
            strictly_ascending(ids@),
            forall|id: u32| ids@.contains(id) <==> has_task(s.take(i as int), id),
        decreases data@.len() - i,
    {
        let ghost old_ids = ids@;
        insert_id(&mut ids, data[i].taskid);
        assert forall|id: u32| ids@.contains(id) <==> has_task(s.take(i + 1), id) by {
            if has_task(s.take(i + 1), id) {
                let k = choose|k: int| 0 <= k < i + 1 && (#[trigger] s.take(i + 1)[k]).taskid == id;
                if k < i {
                    assert(s.take(i as int)[k].taskid == id);
                }
            }
            if has_task(s.take(i as int), id) {
                let k = choose|k: int| 0 <= k < i && (#[trigger] s.take(i as int)[k]).taskid == id;
                assert(s.take(i + 1)[k].taskid == id);
            }
            if id == data@[i as int].taskid {
                assert(s.take(i + 1)[i as int].taskid == id);
            }
        }
        i += 1;
    }
    assert(s.take(data@.len() as int) =~= s);
    ids
}

/// The event with the smallest timestamp, the first of them on a tie.
pub open spec fn earliest(s: Seq<EventView>) -> EventView
    decreases s.len(),
{
    if s.len() <= 1 {
        s[0]
    } else if s.last().timestamp < earliest(s.drop_last()).timestamp {
        s.last()
    } else {
        earliest(s.drop_last())
    }
}

proof fn lemma_of_task_nonempty(s: Seq<EventView>, id: u32)
    ensures
        has_task(s, id) ==> of_task(s, id).len() > 0,
    decreases s.len(),
{
    if s.len() > 0 && s.last().taskid != id {
        lemma_of_task_nonempty(s.drop_last(), id);
        if has_task(s, id) {
            let k = choose|k: int| 0 <= k < s.len() && s[k].taskid == id;
            assert(s.drop_last()[k].taskid == id);
        }
    }
}

/// The events of task `id` in scan order, and the name that the task's
/// earliest event carries.
pub fn task_events(data: &[GeneralEventData], id: u32) -> (r: (Vec<GeneralEventData>, String))
    ensures
        views(r.0@) == tick_order(of_task(views(data@), id)),
        has_task(views(data@), id) ==> r.1@ == earliest(of_task(views(data@), id)).task_name,
{
    let ghost s = views(data@);
    let mut group: Vec<GeneralEventData> = Vec::new();
    let mut first: usize = 0;
    let mut found = false;
    let mut i: usize = 0;
    assert(s.take(0) =~= Seq::<EventView>::empty());
    while i < data.len()
        invariant
            0 <= i <= data@.len(),
            s == views(data@),
            views(group@) == tick_order(of_task(s.take(i as int), id)),
            found == (of_task(s.take(i as int), id).len() > 0),
            found ==> first < i && s[first as int] == earliest(of_task(s.take(i as int), id)),
        decreases data@.len() - i,
    {
        let e = &data[i];
        assert(s.take(i + 1).drop_last() =~= s.take(i as int));
        assert(s.take(i + 1).last() == e@);
        if e.taskid == id {
            let ghost prev = of_task(s.take(i as int), id);
            assert(of_task(s.take(i + 1), id) == prev.push(e@));
            assert(prev.push(e@).drop_last() =~= prev);
            if !found || e.timestamp < data[first].timestamp {
                first = i;
            }
            found = true;
            insert_in_order(&mut group, e.clone());
        } else {
            assert(of_task(s.take(i + 1), id) == of_task(s.take(i as int), id));
        }
        i += 1;
    }
    assert(s.take(data@.len() as int) =~= s);
    proof {
        lemma_of_task_nonempty(s, id);
    }
    let name = if found {
        data[first].task_name.clone()
    } else {
        String::new()
    };
    (group, name)
}

/// The schedule of one task.
#[derive(Debug)]
pub struct TaskSchedule {
    pub task_id: u32,
    pub name: String,
    pub intervals: Vec<BusyInterval>,
    pub markers: Vec<Marker>,
}

/// The reconstructed schedule: one entry per task, ascending by id, and the
/// queue ids in first-seen order.
#[derive(Debug)]
pub struct Schedule {
    pub tasks: Vec<TaskSchedule>,
    pub queue_ids: Vec<u32>,
}

/// What the schedule of task `id` holds, given all events and the task and
/// queue orderings.
pub open spec fn task_schedule_holds(
    t: TaskSchedule,
    data: Seq<EventView>,
    id: u32,
    task_ids: Seq<u32>,
    queue_ids: Seq<u32>,
) -> bool {
    let ordered = tick_order(of_task(data, id));
    &&& t.task_id == id
    &&& t.name@ == earliest(of_task(data, id)).task_name
    &&& t.intervals@ == busy_intervals_of(ordered, id)
    &&& marker_views(t.markers@) == markers_of(ordered, task_ids, queue_ids)
}

/// The ids of the tasks of a schedule, in order.
pub open spec fn schedule_ids(s: Schedule) -> Seq<u32> {
    s.tasks@.map_values(|t: TaskSchedule| t.task_id)
}

/// What the schedule reconstructed from the events `data` holds: the task
/// ids ascending, each task of `data` once; the queue ids in first-seen
/// order; and for each task its name, busy intervals and markers.
pub open spec fn is_schedule_of(r: Schedule, data: Seq<EventView>) -> bool {
    &&& strictly_ascending(schedule_ids(r))
    &&& forall|id: u32| schedule_ids(r).contains(id) <==> has_task(data, id)
    &&& r.queue_ids@ == first_seen_queues(data)
    &&& forall|k: int|
        0 <= k < r.tasks@.len() ==> task_schedule_holds(
            #[trigger] r.tasks@[k],
            data,
            schedule_ids(r)[k],
            schedule_ids(r),
            r.queue_ids@,
        )
}

/// Reconstructs the schedule of every task from the complete list of events.
pub fn get_task_segments(data: &[GeneralEventData]) -> (r: Schedule)
    ensures
        is_schedule_of(r, views(data@)),
{
    let queue_ids = queue_order(data);
    let ids = task_order(data);
    let mut tasks: Vec<TaskSchedule> = Vec::new();
    let mut k: usize = 0;
    while k < ids.len()
        invariant
            0 <= k <= ids@.len(),
            strictly_ascending(ids@),
            forall|id: u32| ids@.contains(id) <==> has_task(views(data@), id),
            queue_ids@ == first_seen_queues(views(data@)),
            tasks@.len() == k,
            forall|j: int| 0 <= j < k ==> (#[trigger] tasks@[j]).task_id == ids@[j],
            forall|j: int|
                0 <= j < k ==> task_schedule_holds(
                    #[trigger] tasks@[j],
                    views(data@),
                    ids@[j],
                    ids@,
                    queue_ids@,
                ),
        decreases ids@.len() - k,
    {
        let id = ids[k];
        assert(ids@.contains(id));
        let (group, name) = task_events(data, id);
        let intervals = busy_intervals(id, group.as_slice());
        let marks = markers(group.as_slice(), ids.as_slice(), queue_ids.as_slice());
        tasks.push(TaskSchedule { task_id: id, name, intervals, markers: marks });
        k += 1;
    }
    let r = Schedule { tasks, queue_ids };
    assert(schedule_ids(r) =~= ids@);
    r
}


proof fn lemma_ascending_unique(a: Seq<u32>, b: Seq<u32>)
    requires
        strictly_ascending(a),
        strictly_ascending(b),
        forall|x: u32| a.contains(x) <==> b.contains(x),
    ensures
        a == b,
    decreases a.len() + b.len(),
{
    if a.len() == 0 {
        if b.len() > 0 {
            assert(b.contains(b[0]));
        }
        assert(a =~= b);
    } else if b.len() == 0 {
        assert(a.contains(a[0]));
    } else {
        assert(a.contains(a[0]) && b.contains(b[0]));
        let i = choose|i: int| 0 <= i < b.len() && b[i] == a[0];
        let j = choose|j: int| 0 <= j < a.len() && a[j] == b[0];
        assert(a[0] == b[0]);
        let ra = a.drop_first();
        let rb = b.drop_first();
        assert forall|x: u32| ra.contains(x) <==> rb.contains(x) by {
            if ra.contains(x) {
                let k = choose|k: int| 0 <= k < ra.len() && ra[k] == x;
                assert(a[k + 1] == x && a.contains(x));
                let m = choose|m: int| 0 <= m < b.len() && b[m] == x;
                assert(m != 0);
                assert(rb[m - 1] == x);
            }
            if rb.contains(x) {
                let k = choose|k: int| 0 <= k < rb.len() && rb[k] == x;
                assert(b[k + 1] == x && b.contains(x));
                let m = choose|m: int| 0 <= m < a.len() && a[m] == x;
                assert(m != 0);
                assert(ra[m - 1] == x);
            }
        }
        lemma_ascending_unique(ra, rb);
        assert forall|i: int| 0 <= i < a.len() implies a[i] == b[i] by {
            if i > 0 {
                assert(a[i] == ra[i - 1]);
                assert(b[i] == rb[i - 1]);
            }
        }
        assert(a =~= b);
    }
}

/// Reconstruction depends on the events alone: two schedules reconstructed
/// from the same events have the same task and queue orderings, and the same
/// name, busy intervals and markers for every task.
pub proof fn lemma_schedule_deterministic(data: Seq<EventView>, a: Schedule, b: Schedule)
    requires
        is_schedule_of(a, data),
        is_schedule_of(b, data),
    ensures
        schedule_ids(a) == schedule_ids(b),
        a.queue_ids@ == b.queue_ids@,
        a.tasks@.len() == b.tasks@.len(),
        forall|k: int|
            0 <= k < a.tasks@.len() ==> {
                &&& (#[trigger] a.tasks@[k]).name@ == b.tasks@[k].name@
                &&& a.tasks@[k].intervals@ == b.tasks@[k].intervals@
                &&& marker_views(a.tasks@[k].markers@) == marker_views(b.tasks@[k].markers@)
            },
{
    assert forall|x: u32| schedule_ids(a).contains(x) <==> schedule_ids(b).contains(x) by {
        assert(schedule_ids(a).contains(x) <==> has_task(data, x));
        assert(schedule_ids(b).contains(x) <==> has_task(data, x));
    }
    lemma_ascending_unique(schedule_ids(a), schedule_ids(b));
    assert(schedule_ids(a).len() == a.tasks@.len());
    assert(schedule_ids(b).len() == b.tasks@.len());
    assert forall|k: int| 0 <= k < a.tasks@.len() implies {
        &&& (#[trigger] a.tasks@[k]).name@ == b.tasks@[k].name@
        &&& a.tasks@[k].intervals@ == b.tasks@[k].intervals@
        &&& marker_views(a.tasks@[k].markers@) == marker_views(b.tasks@[k].markers@)
    } by {
        assert(task_schedule_holds(
            a.tasks@[k],
            data,
            schedule_ids(a)[k],
            schedule_ids(a),
            a.queue_ids@,
        ));
        assert(task_schedule_holds(
            b.tasks@[k],
            data,
            schedule_ids(b)[k],
            schedule_ids(b),
            b.queue_ids@,
        ));
    }
}

} // verus!
