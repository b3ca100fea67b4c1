//! Bounded-window joins between the events of a trace, and what they say about
//! why a thread was blocked.

use vstd::prelude::*;

use crate::event::{EVENT_BLOCK_IO, EVENT_FUTEX_WAIT, EVENT_FUTEX_WAKE, EVENT_SCHED_BLOCK};
use crate::trace::TraceEvent;

verus! {

/// Matching tolerance for every join in this module. It is bounded, so that a
/// stale event of an earlier, unrelated contention cycle is never matched.
pub const MATCH_WINDOW_NS: u64 = 5_000_000;

/// Which events a search is about: those of one thread, or those on one futex
/// address.
#[derive(Clone, Copy)]
pub enum Subject {
    Thread(u32),
    Address(u64),
}

impl Subject {
    pub open spec fn covers(self, e: TraceEvent) -> bool {
        match self {
            Subject::Thread(tid) => e.tid == tid,
            Subject::Address(key) => e.key == key,
        }
    }

    fn matches(&self, e: &TraceEvent) -> (yes: bool)
        ensures
            yes == self.covers(*e),
    {
        match self {
            Subject::Thread(tid) => e.tid == *tid,
            Subject::Address(key) => e.key == *key,
        }
    }
}

/// `ts` is at or before `anchor`, and no more than the window earlier.
pub open spec fn shortly_before(ts: u64, anchor: u64) -> bool {
    ts <= anchor <= ts + MATCH_WINDOW_NS
}

/// `ts` is at or after `anchor`, and no more than the window later.
pub open spec fn shortly_after(ts: u64, anchor: u64) -> bool {
    anchor <= ts <= anchor + MATCH_WINDOW_NS
}

/// The `i`-th event is of type `kind`, is about `who`, and completed shortly
/// before `anchor`.
pub open spec fn precedes(
    events: Seq<TraceEvent>,
    kind: u8,
    who: Subject,
    anchor: u64,
    i: int,
) -> bool {
    &&& 0 <= i < events.len()
    &&& events[i].event_type == kind
    &&& who.covers(events[i])
    &&& shortly_before(events[i].timestamp_ns, anchor)
}

/// The `i`-th event is of type `kind`, is about `who`, and completed shortly
/// after `anchor`.
pub open spec fn follows(
    events: Seq<TraceEvent>,
    kind: u8,
    who: Subject,
    anchor: u64,
    i: int,
) -> bool {
    &&& 0 <= i < events.len()
    &&& events[i].event_type == kind
    &&& who.covers(events[i])
    &&& shortly_after(events[i].timestamp_ns, anchor)
}

/// The `i`-th event is the latest of those that precede `anchor`, and the last
/// recorded of those that are equally late.
pub open spec fn is_nearest_preceding(
    events: Seq<TraceEvent>,
    kind: u8,
    who: Subject,
    anchor: u64,
    i: int,
) -> bool {
    &&& precedes(events, kind, who, anchor, i)
    &&& forall|j: int| #[trigger]
        precedes(events, kind, who, anchor, j) ==> events[j].timestamp_ns < events[i].timestamp_ns
            || (events[j].timestamp_ns == events[i].timestamp_ns && j <= i)
}

/// The `i`-th event is the earliest of those that follow `anchor`, and the
/// first recorded of those that are equally early.
pub open spec fn is_nearest_following(
    events: Seq<TraceEvent>,
    kind: u8,
    who: Subject,
    anchor: u64,
    i: int,
) -> bool {
    &&& follows(events, kind, who, anchor, i)
    &&& forall|j: int| #[trigger]
        follows(events, kind, who, anchor, j) ==> events[i].timestamp_ns < events[j].timestamp_ns
            || (events[i].timestamp_ns == events[j].timestamp_ns && i <= j)
}

/// The latest event of type `kind` about `who` that completed at or before
/// `anchor`, within the window; nothing if there is none.
pub open spec fn preceding(
    events: Seq<TraceEvent>,
    kind: u8,
    who: Subject,
    anchor: u64,
) -> Option<TraceEvent> {
    if exists|i: int| is_nearest_preceding(events, kind, who, anchor, i) {
        Some(events[choose|i: int| is_nearest_preceding(events, kind, who, anchor, i)])
    } else {
        None
    }
}

/// The earliest event of type `kind` about `who` that completed at or after
/// `anchor`, within the window; nothing if there is none.
pub open spec fn following(
    events: Seq<TraceEvent>,
    kind: u8,
    who: Subject,
    anchor: u64,
) -> Option<TraceEvent> {
    if exists|i: int| is_nearest_following(events, kind, who, anchor, i) {
        Some(events[choose|i: int| is_nearest_following(events, kind, who, anchor, i)])
    } else {
        None
    }
}

/// `list` holds the indices of the events of type `kind`, in order.
pub open spec fn lists(events: Seq<TraceEvent>, kind: u8, list: Seq<usize>) -> bool {
    &&& forall|p: int, q: int| 0 <= p < q < list.len() ==> list[p] < list[q]
    &&& forall|p: int|
        0 <= p < list.len() ==> 0 <= #[trigger] list[p] < events.len()
            && events[list[p] as int].event_type == kind
    &&& forall|i: int|
        0 <= i < events.len() && (#[trigger] events[i]).event_type == kind ==> exists|p: int|
            0 <= p < list.len() && list[p] == i
}

/// The events of a trace, sorted into one list per type.
pub struct Typed<'a> {
    pub events: &'a Vec<TraceEvent>,
    pub block: Vec<usize>,
    pub futex_wait: Vec<usize>,
    pub futex_wake: Vec<usize>,
    pub block_io: Vec<usize>,
}

impl<'a> Typed<'a> {
    pub open spec fn wf(self) -> bool {
        &&& lists(self.events@, EVENT_SCHED_BLOCK, self.block@)
        &&& lists(self.events@, EVENT_FUTEX_WAIT, self.futex_wait@)
        &&& lists(self.events@, EVENT_FUTEX_WAKE, self.futex_wake@)
        &&& lists(self.events@, EVENT_BLOCK_IO, self.block_io@)
    }

    /// Sorts the events by type; events of other types are in no list.
    pub fn partition(events: &'a Vec<TraceEvent>) -> (typed: Self)
        ensures
            typed.events == events,
            typed.wf(),
    {
        let mut block: Vec<usize> = Vec::new();
        let mut futex_wait: Vec<usize> = Vec::new();
        let mut futex_wake: Vec<usize> = Vec::new();
        let mut block_io: Vec<usize> = Vec::new();
        let mut i: usize = 0;
        while i < events.len()
            invariant
                i <= events.len(),
                lists(events@.take(i as int), EVENT_SCHED_BLOCK, block@),
                lists(events@.take(i as int), EVENT_FUTEX_WAIT, futex_wait@),
                lists(events@.take(i as int), EVENT_FUTEX_WAKE, futex_wake@),
                lists(events@.take(i as int), EVENT_BLOCK_IO, block_io@),
            decreases events.len() - i,
        {
            let kind = events[i].event_type;
            proof {
                lemma_lists_step(events@, i as int, EVENT_SCHED_BLOCK, block@);
                lemma_lists_step(events@, i as int, EVENT_FUTEX_WAIT, futex_wait@);
                lemma_lists_step(events@, i as int, EVENT_FUTEX_WAKE, futex_wake@);
                lemma_lists_step(events@, i as int, EVENT_BLOCK_IO, block_io@);
            }
            if kind == EVENT_SCHED_BLOCK {
                block.push(i);
            } else if kind == EVENT_FUTEX_WAIT {
                futex_wait.push(i);
            } else if kind == EVENT_FUTEX_WAKE {
                futex_wake.push(i);
            } else if kind == EVENT_BLOCK_IO {
                block_io.push(i);
            }
            i = i + 1;
        }
        assert(events@.take(i as int) =~= events@);
        Typed { events, block, futex_wait, futex_wake, block_io }
    }
}

/// One more event extends the list of its own type and leaves the others.
proof fn lemma_lists_step(events: Seq<TraceEvent>, i: int, kind: u8, list: Seq<usize>)
    requires
        0 <= i < events.len() <= usize::MAX,
        lists(events.take(i), kind, list),
    ensures
        lists(
            events.take(i + 1),
            kind,
            if events[i].event_type == kind {
                list.push(i as usize)
            } else {
                list
            },
        ),
{
    let shorter = events.take(i);
    let longer = events.take(i + 1);
    let grown = if events[i].event_type == kind {
        list.push(i as usize)
    } else {
        list
    };
    assert forall|p: int| 0 <= p < grown.len() implies 0 <= #[trigger] grown[p] < longer.len()
        && longer[grown[p] as int].event_type == kind by {
        if p < list.len() {
            assert(grown[p] == list[p]);
            assert(shorter[list[p] as int].event_type == kind);
        }
    }
    assert forall|k: int|
        0 <= k < longer.len() && (#[trigger] longer[k]).event_type == kind implies exists|p: int|
        0 <= p < grown.len() && grown[p] == k by {
        if k < i {
            assert(shorter[k].event_type == kind);
            let p = choose|p: int| 0 <= p < list.len() && list[p] == k;
            assert(grown[p] == k);
        } else {
            assert(grown[list.len() as int] == k);
        }
    }
}

/// The nearest preceding event is the one that is found.
proof fn lemma_preceding_found(
    events: Seq<TraceEvent>,
    kind: u8,
    who: Subject,
    anchor: u64,
    i: int,
)
    requires
        is_nearest_preceding(events, kind, who, anchor, i),
    ensures
        preceding(events, kind, who, anchor) == Some(events[i]),
{
    let k = choose|k: int| is_nearest_preceding(events, kind, who, anchor, k);
    assert(is_nearest_preceding(events, kind, who, anchor, k));
    assert(precedes(events, kind, who, anchor, i));
    assert(precedes(events, kind, who, anchor, k));
    assert(k == i);
}

/// The nearest following event is the one that is found.
proof fn lemma_following_found(
    events: Seq<TraceEvent>,
    kind: u8,
    who: Subject,
    anchor: u64,
    i: int,
)
    requires
        is_nearest_following(events, kind, who, anchor, i),
    ensures
        following(events, kind, who, anchor) == Some(events[i]),
{
    let k = choose|k: int| is_nearest_following(events, kind, who, anchor, k);
    assert(is_nearest_following(events, kind, who, anchor, k));
    assert(follows(events, kind, who, anchor, i));
    assert(follows(events, kind, who, anchor, k));
    assert(k == i);
}

/// Among `candidates`, the latest event about `who` at or before `anchor`, but
/// no more than the window earlier. Every event is stamped at its completion.
fn nearest_preceding<'a>(
    events: &'a Vec<TraceEvent>,
    candidates: &Vec<usize>,
    Ghost(kind): Ghost<u8>,
    anchor: u64,
    who: Subject,
) -> (found: Option<&'a TraceEvent>)
    requires
        lists(events@, kind, candidates@),
    ensures
        found is Some <==> preceding(events@, kind, who, anchor) is Some,
        found matches Some(e) ==> preceding(events@, kind, who, anchor) == Some(*e),
{
    let mut best: Option<usize> = None;
    let mut n: usize = 0;
    while n < candidates.len()
        invariant
            n <= candidates.len(),
            lists(events@, kind, candidates@),
            best matches Some(b) ==> precedes(events@, kind, who, anchor, b as int),
            best is Some ==> exists|p: int| 0 <= p < n && candidates@[p] == best->0,
            best matches Some(b) ==> forall|p: int|
                0 <= p < n && precedes(
                    events@,
                    kind,
                    who,
                    anchor,
                    #[trigger] candidates@[p] as int,
                ) ==> events@[candidates@[p] as int].timestamp_ns < events@[b as int].timestamp_ns
                    || (events@[candidates@[p] as int].timestamp_ns
                    == events@[b as int].timestamp_ns && candidates@[p] <= b),
            best is None ==> forall|p: int|
                0 <= p < n ==> !precedes(
                    events@,
                    kind,
                    who,
                    anchor,
                    #[trigger] candidates@[p] as int,
                ),
        decreases candidates.len() - n,
    {
        let c = candidates[n];
        let e = &events[c];
        if who.matches(e) && e.timestamp_ns <= anchor && anchor - e.timestamp_ns
            <= MATCH_WINDOW_NS {
            match best {
                Some(b) => {
                    if events[b].timestamp_ns <= e.timestamp_ns {
                        best = Some(c);
                    }
                },
                None => {
                    best = Some(c);
                },
            }
        }
        n = n + 1;
    }
    proof {
        assert forall|j: int| precedes(events@, kind, who, anchor, j) implies exists|p: int|
            0 <= p < candidates@.len() && candidates@[p] == j by {
            assert(events@[j].event_type == kind);
        }
        if best is Some {
            let b = best->0 as int;
            assert forall|j: int| #[trigger] precedes(events@, kind, who, anchor, j) implies events@[j].timestamp_ns
                < events@[b].timestamp_ns || (events@[j].timestamp_ns == events@[b].timestamp_ns
                && j <= b) by {
                let p = choose|p: int| 0 <= p < candidates@.len() && candidates@[p] == j;
                assert(candidates@[p] == j);
            }
            assert(is_nearest_preceding(events@, kind, who, anchor, b));
            lemma_preceding_found(events@, kind, who, anchor, b);
        } else {
            assert forall|j: int| !precedes(events@, kind, who, anchor, j) by {
                if precedes(events@, kind, who, anchor, j) {
                    let p = choose|p: int| 0 <= p < candidates@.len() && candidates@[p] == j;
                    assert(candidates@[p] == j);
                }
            }
        }
    }
    match best {
        Some(b) => Some(&events[b]),
        None => None,
    }
}

/// Mirror of [`nearest_preceding`]: the earliest event about `who` at or after
/// `anchor`, but no more than the window later.
fn nearest_following<'a>(
    events: &'a Vec<TraceEvent>,
    candidates: &Vec<usize>,
    Ghost(kind): Ghost<u8>,
    anchor: u64,
    who: Subject,
) -> (found: Option<&'a TraceEvent>)
    requires
        lists(events@, kind, candidates@),
    ensures
        found is Some <==> following(events@, kind, who, anchor) is Some,
        found matches Some(e) ==> following(events@, kind, who, anchor) == Some(*e),
{
    let mut best: Option<usize> = None;
    let mut n: usize = 0;
    while n < candidates.len()
        invariant
            n <= candidates.len(),
            lists(events@, kind, candidates@),
            best matches Some(b) ==> follows(events@, kind, who, anchor, b as int),
            best is Some ==> exists|p: int| 0 <= p < n && candidates@[p] == best->0,
            best matches Some(b) ==> forall|p: int|
                0 <= p < n && follows(
                    events@,
                    kind,
                    who,
                    anchor,
                    #[trigger] candidates@[p] as int,
                ) ==> events@[b as int].timestamp_ns < events@[candidates@[p] as int].timestamp_ns
                    || (events@[candidates@[p] as int].timestamp_ns
                    == events@[b as int].timestamp_ns && b <= candidates@[p]),
            best is None ==> forall|p: int|
                0 <= p < n ==> !follows(
                    events@,
                    kind,
                    who,
                    anchor,
                    #[trigger] candidates@[p] as int,
                ),
        decreases candidates.len() - n,
    {
        let c = candidates[n];
        let e = &events[c];
        if who.matches(e) && e.timestamp_ns >= anchor && e.timestamp_ns - anchor
            <= MATCH_WINDOW_NS {
            match best {
                Some(b) => {
                    if e.timestamp_ns < events[b].timestamp_ns {
                        best = Some(c);
                    }
                },
                None => {
                    best = Some(c);
                },
            }
        }
        n = n + 1;
    }
    proof {
        assert forall|j: int| follows(events@, kind, who, anchor, j) implies exists|p: int|
            0 <= p < candidates@.len() && candidates@[p] == j by {
            assert(events@[j].event_type == kind);
        }
        if best is Some {
            let b = best->0 as int;
            assert forall|j: int| #[trigger] follows(events@, kind, who, anchor, j) implies events@[b].timestamp_ns
                < events@[j].timestamp_ns || (events@[b].timestamp_ns == events@[j].timestamp_ns
                && b <= j) by {
                let p = choose|p: int| 0 <= p < candidates@.len() && candidates@[p] == j;
                assert(candidates@[p] == j);
            }
            assert(is_nearest_following(events@, kind, who, anchor, b));
            lemma_following_found(events@, kind, who, anchor, b);
        } else {
            assert forall|j: int| !follows(events@, kind, who, anchor, j) by {
                if follows(events@, kind, who, anchor, j) {
                    let p = choose|p: int| 0 <= p < candidates@.len() && candidates@[p] == j;
                    assert(candidates@[p] == j);
                }
            }
        }
    }
    match best {
        Some(b) => Some(&events[b]),
        None => None,
    }
}

/// What a thread was held up by, with the event that says so.
pub enum CauseView {
    Futex(TraceEvent),
    BlockIo(TraceEvent),
    Unknown,
}

/// What a thread was held up by, with the event that says so.
pub enum Cause<'a> {
    Futex { wait: &'a TraceEvent },
    BlockIo { io: &'a TraceEvent },
    Unknown,
}

impl<'a> View for Cause<'a> {
    type V = CauseView;

    open spec fn view(&self) -> CauseView {
        match self {
            Cause::Futex { wait } => CauseView::Futex(**wait),
            Cause::BlockIo { io } => CauseView::BlockIo(**io),
            Cause::Unknown => CauseView::Unknown,
        }
    }
}

/// What the resume of `tid` at `resume_ts` was the tail end of. A block I/O
/// completion causes the resume, so it is looked for before it; a futex wait is
/// stamped once its syscall has returned to userspace, so it is looked for
/// after it. Of two matches the closer one counts, the futex if they are
/// equally close.
pub open spec fn resume_cause(events: Seq<TraceEvent>, tid: u32, resume_ts: u64) -> CauseView {
    match (
        following(events, EVENT_FUTEX_WAIT, Subject::Thread(tid), resume_ts),
        preceding(events, EVENT_BLOCK_IO, Subject::Thread(tid), resume_ts),
    ) {
        (Some(f), Some(i)) => if f.timestamp_ns - resume_ts <= resume_ts - i.timestamp_ns {
            CauseView::Futex(f)
        } else {
            CauseView::BlockIo(i)
        },
        (Some(f), None) => CauseView::Futex(f),
        (None, Some(i)) => CauseView::BlockIo(i),
        (None, None) => CauseView::Unknown,
    }
}

/// What `tid` had been held up by when it reached `anchor`: of its last futex
/// wait and its last block I/O before that point the later one, the futex wait
/// if they completed together.
pub open spec fn prior_cause(events: Seq<TraceEvent>, tid: u32, anchor: u64) -> CauseView {
    match (
        preceding(events, EVENT_FUTEX_WAIT, Subject::Thread(tid), anchor),
        preceding(events, EVENT_BLOCK_IO, Subject::Thread(tid), anchor),
    ) {
        (Some(f), Some(i)) => if f.timestamp_ns >= i.timestamp_ns {
            CauseView::Futex(f)
        } else {
            CauseView::BlockIo(i)
        },
        (Some(f), None) => CauseView::Futex(f),
        (None, Some(i)) => CauseView::BlockIo(i),
        (None, None) => CauseView::Unknown,
    }
}

/// An event that is found before an anchor is one of the trace, of the type and
/// about the subject that were asked for, and at most the window earlier.
pub proof fn law_preceding_is_within_window(
    events: Seq<TraceEvent>,
    kind: u8,
    who: Subject,
    anchor: u64,
)
    ensures
        preceding(events, kind, who, anchor) matches Some(e) ==> {
            &&& events.contains(e)
            &&& e.event_type == kind
            &&& who.covers(e)
            &&& e.timestamp_ns <= anchor
            &&& anchor - e.timestamp_ns <= MATCH_WINDOW_NS
        },
{
    if exists|i: int| is_nearest_preceding(events, kind, who, anchor, i) {
        let i = choose|i: int| is_nearest_preceding(events, kind, who, anchor, i);
        assert(events.contains(events[i]));
    }
}

/// An event that is found after an anchor is one of the trace, of the type and
/// about the subject that were asked for, and at most the window later.
pub proof fn law_following_is_within_window(
    events: Seq<TraceEvent>,
    kind: u8,
    who: Subject,
    anchor: u64,
)
    ensures
        following(events, kind, who, anchor) matches Some(e) ==> {
            &&& events.contains(e)
            &&& e.event_type == kind
            &&& who.covers(e)
            &&& anchor <= e.timestamp_ns
            &&& e.timestamp_ns - anchor <= MATCH_WINDOW_NS
        },
{
    if exists|i: int| is_nearest_following(events, kind, who, anchor, i) {
        let i = choose|i: int| is_nearest_following(events, kind, who, anchor, i);
        assert(events.contains(events[i]));
    }
}

/// The best of the first `n` events, if any of them precedes the anchor.
proof fn lemma_best_preceding(
    events: Seq<TraceEvent>,
    kind: u8,
    who: Subject,
    anchor: u64,
    n: int,
) -> (best: Option<int>)
    requires
        0 <= n <= events.len(),
    ensures
        best is None ==> forall|j: int| 0 <= j < n ==> !precedes(events, kind, who, anchor, j),
        best matches Some(b) ==> 0 <= b < n && precedes(events, kind, who, anchor, b) && (forall|
            j: int,
        |
            0 <= j < n && #[trigger] precedes(events, kind, who, anchor, j)
                ==> events[j].timestamp_ns < events[b].timestamp_ns || (events[j].timestamp_ns
                == events[b].timestamp_ns && j <= b)),
    decreases n,
{
    if n == 0 {
        None
    } else {
        let best = lemma_best_preceding(events, kind, who, anchor, n - 1);
        let last = n - 1;
        if !precedes(events, kind, who, anchor, last) {
            best
        } else if best is Some && events[last].timestamp_ns < events[best->0].timestamp_ns {
            best
        } else {
            Some(last)
        }
    }
}

/// The best of the first `n` events, if any of them follows the anchor.
proof fn lemma_best_following(
    events: Seq<TraceEvent>,
    kind: u8,
    who: Subject,
    anchor: u64,
    n: int,
) -> (best: Option<int>)
    requires
        0 <= n <= events.len(),
    ensures
        best is None ==> forall|j: int| 0 <= j < n ==> !follows(events, kind, who, anchor, j),
        best matches Some(b) ==> 0 <= b < n && follows(events, kind, who, anchor, b) && (forall|
            j: int,
        |
            0 <= j < n && #[trigger] follows(events, kind, who, anchor, j)
                ==> events[b].timestamp_ns < events[j].timestamp_ns || (events[b].timestamp_ns
                == events[j].timestamp_ns && b <= j)),
    decreases n,
{
    if n == 0 {
        None
    } else {
        let best = lemma_best_following(events, kind, who, anchor, n - 1);
        let last = n - 1;
        if !follows(events, kind, who, anchor, last) {
            best
        } else if best is Some && events[best->0].timestamp_ns <= events[last].timestamp_ns {
            best
        } else {
            Some(last)
        }
    }
}

/// There is an edge to an earlier event exactly when some candidate is in
/// range, and it goes to the latest of them.
pub proof fn law_preceding_found_iff_in_range(
    events: Seq<TraceEvent>,
    kind: u8,
    who: Subject,
    anchor: u64,
)
    ensures
        preceding(events, kind, who, anchor) is Some <==> exists|i: int|
            precedes(events, kind, who, anchor, i),
        preceding(events, kind, who, anchor) matches Some(e) ==> forall|i: int| #[trigger]
            precedes(events, kind, who, anchor, i) ==> events[i].timestamp_ns <= e.timestamp_ns,
{
    let best = lemma_best_preceding(events, kind, who, anchor, events.len() as int);
    if best is Some {
        assert(is_nearest_preceding(events, kind, who, anchor, best->0));
        lemma_preceding_found(events, kind, who, anchor, best->0);
    }
}

/// There is an edge to a later event exactly when some candidate is in range,
/// and it goes to the earliest of them.
pub proof fn law_following_found_iff_in_range(
    events: Seq<TraceEvent>,
    kind: u8,
    who: Subject,
    anchor: u64,
)
    ensures
        following(events, kind, who, anchor) is Some <==> exists|i: int|
            follows(events, kind, who, anchor, i),
        following(events, kind, who, anchor) matches Some(e) ==> forall|i: int| #[trigger]
            follows(events, kind, who, anchor, i) ==> e.timestamp_ns <= events[i].timestamp_ns,
{
    let best = lemma_best_following(events, kind, who, anchor, events.len() as int);
    if best is Some {
        assert(is_nearest_following(events, kind, who, anchor, best->0));
        lemma_following_found(events, kind, who, anchor, best->0);
    }
}

/// A stall goes unexplained only where the thread has neither a futex wait just
/// after its resume nor a block I/O just before it.
pub proof fn law_unknown_means_nothing_in_range(
    events: Seq<TraceEvent>,
    tid: u32,
    resume_ts: u64,
)
    ensures
        resume_cause(events, tid, resume_ts) is Unknown <==> {
            &&& forall|i: int|
                !follows(events, EVENT_FUTEX_WAIT, Subject::Thread(tid), resume_ts, i)
            &&& forall|i: int|
                !precedes(events, EVENT_BLOCK_IO, Subject::Thread(tid), resume_ts, i)
        },
{
    law_following_found_iff_in_range(events, EVENT_FUTEX_WAIT, Subject::Thread(tid), resume_ts);
    law_preceding_found_iff_in_range(events, EVENT_BLOCK_IO, Subject::Thread(tid), resume_ts);
}

/// A resume is explained by an event of the same thread: a futex wait that
/// completed at or after the resume, or a block I/O that completed at or before
/// it, and no candidate of the other sort is closer.
pub proof fn law_resume_cause_is_closest(events: Seq<TraceEvent>, tid: u32, resume_ts: u64)
    ensures
        resume_cause(events, tid, resume_ts) matches CauseView::Futex(f) ==> {
            &&& f.event_type == EVENT_FUTEX_WAIT && f.tid == tid
            &&& shortly_after(f.timestamp_ns, resume_ts)
            &&& forall|i: int| #[trigger]
                precedes(events, EVENT_BLOCK_IO, Subject::Thread(tid), resume_ts, i)
                    ==> f.timestamp_ns - resume_ts <= resume_ts - events[i].timestamp_ns
        },
        resume_cause(events, tid, resume_ts) matches CauseView::BlockIo(b) ==> {
            &&& b.event_type == EVENT_BLOCK_IO && b.tid == tid
            &&& shortly_before(b.timestamp_ns, resume_ts)
            &&& forall|i: int| #[trigger]
                follows(events, EVENT_FUTEX_WAIT, Subject::Thread(tid), resume_ts, i) ==> resume_ts
                    - b.timestamp_ns < events[i].timestamp_ns - resume_ts
        },
{
    law_following_found_iff_in_range(events, EVENT_FUTEX_WAIT, Subject::Thread(tid), resume_ts);
    law_preceding_found_iff_in_range(events, EVENT_BLOCK_IO, Subject::Thread(tid), resume_ts);
    law_following_is_within_window(events, EVENT_FUTEX_WAIT, Subject::Thread(tid), resume_ts);
    law_preceding_is_within_window(events, EVENT_BLOCK_IO, Subject::Thread(tid), resume_ts);
}

/// What a thread had been held up by is the last thing of its own that had
/// completed: no futex wait and no block I/O of it in range completed later, and
/// it is unknown only where there is neither.
pub proof fn law_prior_cause_is_latest(events: Seq<TraceEvent>, tid: u32, anchor: u64)
    ensures
        match prior_cause(events, tid, anchor) {
            CauseView::Futex(f) => {
                &&& f.event_type == EVENT_FUTEX_WAIT && f.tid == tid
                &&& shortly_before(f.timestamp_ns, anchor)
                &&& forall|i: int| #[trigger]
                    precedes(events, EVENT_FUTEX_WAIT, Subject::Thread(tid), anchor, i)
                        ==> events[i].timestamp_ns <= f.timestamp_ns
                &&& forall|i: int| #[trigger]
                    precedes(events, EVENT_BLOCK_IO, Subject::Thread(tid), anchor, i)
                        ==> events[i].timestamp_ns <= f.timestamp_ns
            },
            CauseView::BlockIo(b) => {
                &&& b.event_type == EVENT_BLOCK_IO && b.tid == tid
                &&& shortly_before(b.timestamp_ns, anchor)
                &&& forall|i: int| #[trigger]
                    precedes(events, EVENT_FUTEX_WAIT, Subject::Thread(tid), anchor, i)
                        ==> events[i].timestamp_ns < b.timestamp_ns
                &&& forall|i: int| #[trigger]
                    precedes(events, EVENT_BLOCK_IO, Subject::Thread(tid), anchor, i)
                        ==> events[i].timestamp_ns <= b.timestamp_ns
            },
            CauseView::Unknown => {
                &&& forall|i: int|
                    !precedes(events, EVENT_FUTEX_WAIT, Subject::Thread(tid), anchor, i)
                &&& forall|i: int|
                    !precedes(events, EVENT_BLOCK_IO, Subject::Thread(tid), anchor, i)
            },
        },
{
    law_preceding_found_iff_in_range(events, EVENT_FUTEX_WAIT, Subject::Thread(tid), anchor);
    law_preceding_found_iff_in_range(events, EVENT_BLOCK_IO, Subject::Thread(tid), anchor);
    law_preceding_is_within_window(events, EVENT_FUTEX_WAIT, Subject::Thread(tid), anchor);
    law_preceding_is_within_window(events, EVENT_BLOCK_IO, Subject::Thread(tid), anchor);
}

impl<'a> Typed<'a> {
    /// What was `tid` doing that a resume at `resume_ts` was the tail end of?
    pub fn classify_resume_cause(&self, tid: u32, resume_ts: u64) -> (cause: Cause<'a>)
        requires
            self.wf(),
        ensures
            cause@ == resume_cause(self.events@, tid, resume_ts),
    {
        let who = Subject::Thread(tid);
        let fw = nearest_following(
            self.events,
            &self.futex_wait,
            Ghost(EVENT_FUTEX_WAIT),
            resume_ts,
            who,
        );
        let io = nearest_preceding(
            self.events,
            &self.block_io,
            Ghost(EVENT_BLOCK_IO),
            resume_ts,
            who,
        );
        proof {
            law_following_is_within_window(self.events@, EVENT_FUTEX_WAIT, who, resume_ts);
            law_preceding_is_within_window(self.events@, EVENT_BLOCK_IO, who, resume_ts);
        }
        match (fw, io) {
            (Some(f), Some(i)) => {
                let f_dist = f.timestamp_ns - resume_ts;
                let io_dist = resume_ts - i.timestamp_ns;
                if f_dist <= io_dist {
                    Cause::Futex { wait: f }
                } else {
                    Cause::BlockIo { io: i }
                }
            },
            (Some(f), None) => Cause::Futex { wait: f },
            (None, Some(i)) => Cause::BlockIo { io: i },
            (None, None) => Cause::Unknown,
        }
    }

    /// What did `tid` do immediately prior to (and by implication, in order to
    /// be able to reach) `anchor_ts`?
    pub fn classify_prior_cause(&self, tid: u32, anchor_ts: u64) -> (cause: Cause<'a>)
        requires
            self.wf(),
        ensures
            cause@ == prior_cause(self.events@, tid, anchor_ts),
    {
        let who = Subject::Thread(tid);
        let fw = nearest_preceding(
            self.events,
            &self.futex_wait,
            Ghost(EVENT_FUTEX_WAIT),
            anchor_ts,
            who,
        );
        let io = nearest_preceding(
            self.events,
            &self.block_io,
            Ghost(EVENT_BLOCK_IO),
            anchor_ts,
            who,
        );
        match (fw, io) {
            (Some(f), Some(i)) => {
                if f.timestamp_ns >= i.timestamp_ns {
                    Cause::Futex { wait: f }
                } else {
                    Cause::BlockIo { io: i }
                }
            },
            (Some(f), None) => Cause::Futex { wait: f },
            (None, Some(i)) => Cause::BlockIo { io: i },
            (None, None) => Cause::Unknown,
        }
    }

    /// The futex wake on `key` that completed nearest before `anchor_ts`.
    pub fn waker(&self, key: u64, anchor_ts: u64) -> (wake: Option<&'a TraceEvent>)
        requires
            self.wf(),
        ensures
            wake is Some <==> preceding(
                self.events@,
                EVENT_FUTEX_WAKE,
                Subject::Address(key),
                anchor_ts,
            ) is Some,
            wake matches Some(w) ==> preceding(
                self.events@,
                EVENT_FUTEX_WAKE,
                Subject::Address(key),
                anchor_ts,
            ) == Some(*w),
    {
        nearest_preceding(
            self.events,
            &self.futex_wake,
            Ghost(EVENT_FUTEX_WAKE),
            anchor_ts,
            Subject::Address(key),
        )
    }
}

/// What a search backward finds, in terms of the events alone: an event of the
/// type that was asked for, by the thread or on the address that was asked for,
/// at most five milliseconds before the anchor and never after it. No other such
/// event is later, nor as late and recorded after it; nothing is found only where
/// there is no such event.
pub proof fn law_backward_search_finds_the_latest(
    events: Seq<TraceEvent>,
    kind: u8,
    tid: u32,
    key: u64,
    anchor: u64,
)
    ensures
        match preceding(events, kind, Subject::Thread(tid), anchor) {
            Some(e) => exists|i: int|
                0 <= i < events.len() && #[trigger] events[i] == e && e.event_type == kind && e.tid
                    == tid && e.timestamp_ns <= anchor && anchor - e.timestamp_ns <= 5_000_000 && (
                forall|j: int|
                    0 <= j < events.len() && (#[trigger] events[j]).event_type == kind
                        && events[j].tid == tid && events[j].timestamp_ns <= anchor && anchor
                        - events[j].timestamp_ns <= 5_000_000 ==> events[j].timestamp_ns
                        < e.timestamp_ns || (events[j].timestamp_ns == e.timestamp_ns && j <= i)),
            None => forall|j: int|
                0 <= j < events.len() && (#[trigger] events[j]).event_type == kind && events[j].tid
                    == tid ==> events[j].timestamp_ns > anchor || anchor - events[j].timestamp_ns
                    > 5_000_000,
        },
        match preceding(events, kind, Subject::Address(key), anchor) {
            Some(e) => exists|i: int|
                0 <= i < events.len() && #[trigger] events[i] == e && e.event_type == kind && e.key
                    == key && e.timestamp_ns <= anchor && anchor - e.timestamp_ns <= 5_000_000 && (
                forall|j: int|
                    0 <= j < events.len() && (#[trigger] events[j]).event_type == kind
                        && events[j].key == key && events[j].timestamp_ns <= anchor && anchor
                        - events[j].timestamp_ns <= 5_000_000 ==> events[j].timestamp_ns
                        < e.timestamp_ns || (events[j].timestamp_ns == e.timestamp_ns && j <= i)),
            None => forall|j: int|
                0 <= j < events.len() && (#[trigger] events[j]).event_type == kind && events[j].key
                    == key ==> events[j].timestamp_ns > anchor || anchor - events[j].timestamp_ns
                    > 5_000_000,
        },
{
    lemma_backward(events, kind, Subject::Thread(tid), anchor);
    lemma_backward(events, kind, Subject::Address(key), anchor);
}

/// A backward search finds the event at an index that is nearest, or none
/// precedes.
proof fn lemma_backward(events: Seq<TraceEvent>, kind: u8, who: Subject, anchor: u64)
    ensures
        match preceding(events, kind, who, anchor) {
            Some(e) => exists|i: int|
                0 <= i < events.len() && #[trigger] events[i] == e && is_nearest_preceding(
                    events,
                    kind,
                    who,
                    anchor,
                    i,
                ) && (forall|j: int|
                    0 <= j < events.len() && (#[trigger] events[j]).event_type == kind
                        && who.covers(events[j]) && shortly_before(events[j].timestamp_ns, anchor)
                        ==> events[j].timestamp_ns < e.timestamp_ns || (events[j].timestamp_ns
                        == e.timestamp_ns && j <= i)),
            None => forall|j: int|
                0 <= j < events.len() && (#[trigger] events[j]).event_type == kind ==> !(
                who.covers(events[j]) && shortly_before(events[j].timestamp_ns, anchor)),
        },
{
    law_preceding_found_iff_in_range(events, kind, who, anchor);
    match preceding(events, kind, who, anchor) {
        Some(e) => {
            let i = choose|i: int| is_nearest_preceding(events, kind, who, anchor, i);
            assert(events[i] == e);
            assert forall|j: int|
                0 <= j < events.len() && (#[trigger] events[j]).event_type == kind && who.covers(
                    events[j],
                ) && shortly_before(
                    events[j].timestamp_ns,
                    anchor,
                ) implies events[j].timestamp_ns < e.timestamp_ns || (events[j].timestamp_ns
                == e.timestamp_ns && j <= i) by {
                assert(precedes(events, kind, who, anchor, j));
            }
        },
        None => {
            assert forall|j: int|
                0 <= j < events.len() && (#[trigger] events[j]).event_type == kind implies !(
            who.covers(events[j]) && shortly_before(events[j].timestamp_ns, anchor)) by {
                assert(!precedes(events, kind, who, anchor, j));
            }
        },
    }
}

/// What a search forward finds, in terms of the events alone: an event of the
/// type that was asked for, by the thread or on the address that was asked for,
/// at most five milliseconds after the anchor and never before it. No other such
/// event is earlier, nor as early and recorded before it; nothing is found only
/// where there is no such event.
pub proof fn law_forward_search_finds_the_earliest(
    events: Seq<TraceEvent>,
    kind: u8,
    tid: u32,
    key: u64,
    anchor: u64,
)
    ensures
        match following(events, kind, Subject::Thread(tid), anchor) {
            Some(e) => exists|i: int|
                0 <= i < events.len() && #[trigger] events[i] == e && e.event_type == kind && e.tid
                    == tid && anchor <= e.timestamp_ns && e.timestamp_ns - anchor <= 5_000_000 && (
                forall|j: int|
                    0 <= j < events.len() && (#[trigger] events[j]).event_type == kind
                        && events[j].tid == tid && anchor <= events[j].timestamp_ns
                        && events[j].timestamp_ns - anchor <= 5_000_000 ==> e.timestamp_ns
                        < events[j].timestamp_ns || (e.timestamp_ns == events[j].timestamp_ns && i
                        <= j)),
            None => forall|j: int|
                0 <= j < events.len() && (#[trigger] events[j]).event_type == kind && events[j].tid
                    == tid ==> events[j].timestamp_ns < anchor || events[j].timestamp_ns - anchor
                    > 5_000_000,
        },
        match following(events, kind, Subject::Address(key), anchor) {
            Some(e) => exists|i: int|
                0 <= i < events.len() && #[trigger] events[i] == e && e.event_type == kind && e.key
                    == key && anchor <= e.timestamp_ns && e.timestamp_ns - anchor <= 5_000_000 && (
                forall|j: int|
                    0 <= j < events.len() && (#[trigger] events[j]).event_type == kind
                        && events[j].key == key && anchor <= events[j].timestamp_ns
                        && events[j].timestamp_ns - anchor <= 5_000_000 ==> e.timestamp_ns
                        < events[j].timestamp_ns || (e.timestamp_ns == events[j].timestamp_ns && i
                        <= j)),
            None => forall|j: int|
                0 <= j < events.len() && (#[trigger] events[j]).event_type == kind && events[j].key
                    == key ==> events[j].timestamp_ns < anchor || events[j].timestamp_ns - anchor
                    > 5_000_000,
        },
{
    lemma_forward(events, kind, Subject::Thread(tid), anchor);
    lemma_forward(events, kind, Subject::Address(key), anchor);
}

/// A forward search finds the event at an index that is nearest, or none follows.
proof fn lemma_forward(events: Seq<TraceEvent>, kind: u8, who: Subject, anchor: u64)
    ensures
        match following(events, kind, who, anchor) {
            Some(e) => exists|i: int|
                0 <= i < events.len() && #[trigger] events[i] == e && is_nearest_following(
                    events,
                    kind,
                    who,
                    anchor,
                    i,
                ) && (forall|j: int|
                    0 <= j < events.len() && (#[trigger] events[j]).event_type == kind
                        && who.covers(events[j]) && shortly_after(events[j].timestamp_ns, anchor)
                        ==> e.timestamp_ns < events[j].timestamp_ns || (e.timestamp_ns
                        == events[j].timestamp_ns && i <= j)),
            None => forall|j: int|
                0 <= j < events.len() && (#[trigger] events[j]).event_type == kind ==> !(
                who.covers(events[j]) && shortly_after(events[j].timestamp_ns, anchor)),
        },
{
    law_following_found_iff_in_range(events, kind, who, anchor);
    match following(events, kind, who, anchor) {
        Some(e) => {
            let i = choose|i: int| is_nearest_following(events, kind, who, anchor, i);
            assert(events[i] == e);
            assert forall|j: int|
                0 <= j < events.len() && (#[trigger] events[j]).event_type == kind && who.covers(
                    events[j],
                ) && shortly_after(
                    events[j].timestamp_ns,
                    anchor,
                ) implies e.timestamp_ns < events[j].timestamp_ns || (e.timestamp_ns
                == events[j].timestamp_ns && i <= j) by {
                assert(follows(events, kind, who, anchor, j));
            }
        },
        None => {
            assert forall|j: int|
                0 <= j < events.len() && (#[trigger] events[j]).event_type == kind implies !(
            who.covers(events[j]) && shortly_after(events[j].timestamp_ns, anchor)) by {
                assert(!follows(events, kind, who, anchor, j));
            }
        },
    }
}

/// What explains a resume, in terms of the events alone. A futex wait that does is
/// the thread's earliest that completed at or after the resume, within five
/// milliseconds, and no block I/O of the thread completed closer before it. A
/// block I/O that does is the thread's latest that completed at or before the
/// resume, within five milliseconds, and every futex wait of the thread after it
/// is further off. It is unknown only where the thread has neither in range.
pub proof fn law_resume_is_explained_by_the_nearest(
    events: Seq<TraceEvent>,
    tid: u32,
    resume_ts: u64,
)
    ensures
        match resume_cause(events, tid, resume_ts) {
            CauseView::Futex(f) => exists|i: int|
                0 <= i < events.len() && #[trigger] events[i] == f && f.event_type == 1 && f.tid
                    == tid && resume_ts <= f.timestamp_ns && f.timestamp_ns - resume_ts <= 5_000_000
                    && (forall|j: int|
                    0 <= j < events.len() && (#[trigger] events[j]).event_type == 1 && events[j].tid
                        == tid && resume_ts <= events[j].timestamp_ns ==> f.timestamp_ns
                        < events[j].timestamp_ns || (f.timestamp_ns == events[j].timestamp_ns && i
                        <= j)) && (forall|j: int|
                    0 <= j < events.len() && (#[trigger] events[j]).event_type == 3 && events[j].tid
                        == tid && events[j].timestamp_ns <= resume_ts ==> f.timestamp_ns
                        - resume_ts <= resume_ts - events[j].timestamp_ns),
            CauseView::BlockIo(b) => exists|i: int|
                0 <= i < events.len() && #[trigger] events[i] == b && b.event_type == 3 && b.tid
                    == tid && b.timestamp_ns <= resume_ts && resume_ts - b.timestamp_ns <= 5_000_000
                    && (forall|j: int|
                    0 <= j < events.len() && (#[trigger] events[j]).event_type == 3 && events[j].tid
                        == tid && events[j].timestamp_ns <= resume_ts ==> events[j].timestamp_ns
                        < b.timestamp_ns || (events[j].timestamp_ns == b.timestamp_ns && j <= i))
                    && (forall|j: int|
                    0 <= j < events.len() && (#[trigger] events[j]).event_type == 1 && events[j].tid
                        == tid && resume_ts <= events[j].timestamp_ns ==> resume_ts
                        - b.timestamp_ns < events[j].timestamp_ns - resume_ts),
            CauseView::Unknown => forall|j: int|
                0 <= j < events.len() && (#[trigger] events[j]).tid == tid ==> {
                    &&& events[j].event_type == 1 ==> events[j].timestamp_ns < resume_ts
                        || events[j].timestamp_ns - resume_ts > 5_000_000
                    &&& events[j].event_type == 3 ==> events[j].timestamp_ns > resume_ts || resume_ts
                        - events[j].timestamp_ns > 5_000_000
                },
        },
{
    law_forward_search_finds_the_earliest(events, 1, tid, 0, resume_ts);
    law_backward_search_finds_the_latest(events, 3, tid, 0, resume_ts);
}

/// What a thread had been held up by when it came to a point, in terms of the
/// events alone: of the futex waits and block I/Os of that thread that completed
/// at or before that point, within five milliseconds, the one that completed last.
/// Of a futex wait and a block I/O that completed together it is the futex wait;
/// of two of a sort, the one recorded later. It is unknown only where the thread
/// has neither in range.
pub proof fn law_hold_up_is_the_last_thing_completed(
    events: Seq<TraceEvent>,
    tid: u32,
    anchor: u64,
)
    ensures
        match prior_cause(events, tid, anchor) {
            CauseView::Futex(f) => exists|i: int|
                0 <= i < events.len() && #[trigger] events[i] == f && f.event_type == 1 && f.tid
                    == tid && f.timestamp_ns <= anchor && anchor - f.timestamp_ns <= 5_000_000 && (
                forall|j: int|
                    0 <= j < events.len() && (#[trigger] events[j]).tid == tid
                        && events[j].timestamp_ns <= anchor ==> {
                        &&& events[j].event_type == 1 ==> events[j].timestamp_ns < f.timestamp_ns
                            || (events[j].timestamp_ns == f.timestamp_ns && j <= i)
                        &&& events[j].event_type == 3 ==> events[j].timestamp_ns <= f.timestamp_ns
                    }),
            CauseView::BlockIo(b) => exists|i: int|
                0 <= i < events.len() && #[trigger] events[i] == b && b.event_type == 3 && b.tid
                    == tid && b.timestamp_ns <= anchor && anchor - b.timestamp_ns <= 5_000_000 && (
                forall|j: int|
                    0 <= j < events.len() && (#[trigger] events[j]).tid == tid
                        && events[j].timestamp_ns <= anchor ==> {
                        &&& events[j].event_type == 1 ==> events[j].timestamp_ns < b.timestamp_ns
                        &&& events[j].event_type == 3 ==> events[j].timestamp_ns < b.timestamp_ns
                            || (events[j].timestamp_ns == b.timestamp_ns && j <= i)
                    }),
            CauseView::Unknown => forall|j: int|
                0 <= j < events.len() && (#[trigger] events[j]).tid == tid && (events[j].event_type
                    == 1 || events[j].event_type == 3) ==> events[j].timestamp_ns > anchor || anchor
                    - events[j].timestamp_ns > 5_000_000,
        },
{
    law_backward_search_finds_the_latest(events, 1, tid, 0, anchor);
    law_backward_search_finds_the_latest(events, 3, tid, 0, anchor);
}

/// Each list of a sorted trace holds the events of its type, every one of them, once,
/// and in the order of recording; no other event is in any of them.
pub proof fn law_lists_hold_the_events_of_their_type(typed: Typed, i: usize)
    requires
        typed.wf(),
        i < typed.events@.len(),
    ensures
        typed.block@.contains(i) <==> typed.events@[i as int].event_type == 0,
        typed.futex_wait@.contains(i) <==> typed.events@[i as int].event_type == 1,
        typed.futex_wake@.contains(i) <==> typed.events@[i as int].event_type == 2,
        typed.block_io@.contains(i) <==> typed.events@[i as int].event_type == 3,
        forall|p: int, q: int| 0 <= p < q < typed.block@.len() ==> typed.block@[p] < typed.block@[q],
        forall|p: int, q: int|
            0 <= p < q < typed.futex_wait@.len() ==> typed.futex_wait@[p] < typed.futex_wait@[q],
        forall|p: int, q: int|
            0 <= p < q < typed.futex_wake@.len() ==> typed.futex_wake@[p] < typed.futex_wake@[q],
        forall|p: int, q: int|
            0 <= p < q < typed.block_io@.len() ==> typed.block_io@[p] < typed.block_io@[q],
{
    lemma_listed(typed.events@, 0, typed.block@, i);
    lemma_listed(typed.events@, 1, typed.futex_wait@, i);
    lemma_listed(typed.events@, 2, typed.futex_wake@, i);
    lemma_listed(typed.events@, 3, typed.block_io@, i);
}

/// A list holds an event exactly if that is of its type.
proof fn lemma_listed(events: Seq<TraceEvent>, kind: u8, list: Seq<usize>, i: usize)
    requires
        lists(events, kind, list),
        i < events.len(),
    ensures
        list.contains(i) <==> events[i as int].event_type == kind,
{
    if events[i as int].event_type == kind {
        let p = choose|p: int| 0 <= p < list.len() && list[p] == i;
        assert(list[p] == i);
    }
    if list.contains(i) {
        let p = choose|p: int| 0 <= p < list.len() && list[p] == i;
        assert(events[list[p] as int].event_type == kind);
    }
}

} // verus!
