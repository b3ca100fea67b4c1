//! Walking from a blocked interval back to its root cause.

use vstd::prelude::*;

use crate::event::{unpack_block_key, EVENT_BLOCK_IO, EVENT_FUTEX_WAIT, EVENT_FUTEX_WAKE};
use crate::matching;
use crate::matching::{Cause, CauseView, Subject, Typed};
use crate::trace;
use crate::trace::{TraceEvent, TraceFile};

verus! {

/// How many wakers a chain may go through.
pub const MAX_CHAIN_DEPTH: u32 = 8;

/// What a stalled thread was blocked on.
#[derive(Clone, Copy, Debug, PartialEq, Eq, Structural)]
pub enum Blocker {
    Futex { address: u64 },
    BlockIo { dev: u32, sector: u32 },
    Unknown,
}

/// One step of a chain, going back in time.
#[derive(Clone, Copy, Debug, PartialEq, Eq, Structural)]
pub enum Hop {
    /// The thread before was woken by `tid`.
    WokenBy { tid: u32 },
    /// `tid` had itself been waiting on a futex.
    OnFutex { tid: u32, duration_ns: u64, address: u64 },
    /// `tid` had itself been waiting for block I/O.
    OnBlockIo { tid: u32, duration_ns: u64, dev: u32, sector: u32 },
}

/// The start of the span that `e` is stamped at the end of.
pub open spec fn span_start(e: TraceEvent) -> u64 {
    if e.duration_ns <= e.timestamp_ns {
        (e.timestamp_ns - e.duration_ns) as u64
    } else {
        0
    }
}

/// The device in a block I/O key.
pub open spec fn key_dev(key: u64) -> u32 {
    (key / 0x1_0000_0000) as u32
}

/// The sector in a block I/O key.
pub open spec fn key_sector(key: u64) -> u32 {
    (key % 0x1_0000_0000) as u32
}

/// The wake that ended the futex wait `wait`: the one on the same address that
/// completed nearest before it.
pub open spec fn wake_of(events: Seq<TraceEvent>, wait: TraceEvent) -> Option<TraceEvent> {
    matching::preceding(
        events,
        EVENT_FUTEX_WAKE,
        Subject::Address(wait.key),
        wait.timestamp_ns,
    )
}

/// What the thread that issued `wake` had been held up by when it began to.
pub open spec fn cause_of_wake(events: Seq<TraceEvent>, wake: TraceEvent) -> CauseView {
    matching::prior_cause(events, wake.tid, span_start(wake))
}

/// The steps back from the futex wait `wait`: who woke it, what that thread had
/// been waiting for, and so on, until the trail runs out, ends at a block I/O,
/// or has gone through the allowed number of wakers.
pub open spec fn trail(events: Seq<TraceEvent>, wait: TraceEvent, depth: nat) -> Seq<Hop>
    decreases MAX_CHAIN_DEPTH - depth,
{
    match wake_of(events, wait) {
        None => Seq::empty(),
        Some(wake) => if depth >= MAX_CHAIN_DEPTH {
            seq![Hop::WokenBy { tid: wake.tid }]
        } else {
            match cause_of_wake(events, wake) {
                CauseView::Futex(next) => seq![
                    Hop::WokenBy { tid: wake.tid },
                    Hop::OnFutex {
                        tid: wake.tid,
                        duration_ns: next.duration_ns,
                        address: next.key,
                    },
                ] + trail(events, next, depth + 1),
                CauseView::BlockIo(io) => seq![
                    Hop::WokenBy { tid: wake.tid },
                    Hop::OnBlockIo {
                        tid: wake.tid,
                        duration_ns: io.duration_ns,
                        dev: key_dev(io.key),
                        sector: key_sector(io.key),
                    },
                ],
                CauseView::Unknown => seq![Hop::WokenBy { tid: wake.tid }],
            }
        },
    }
}

/// What is known of one blocked interval.
#[verifier::ext_equal]
pub struct StallView {
    pub tid: u32,
    pub duration_ns: u64,
    /// When the interval began, as wall-clock nanoseconds.
    pub wall_ns: u64,
    pub blocker: Blocker,
    pub hops: Seq<Hop>,
}

/// One blocked interval, with what it was blocked on and the steps back from
/// there.
#[derive(Debug)]
pub struct Stall {
    pub tid: u32,
    pub duration_ns: u64,
    /// When the interval began, as wall-clock nanoseconds.
    pub wall_ns: u64,
    pub blocker: Blocker,
    pub hops: Vec<Hop>,
}

impl View for Stall {
    type V = StallView;

    open spec fn view(&self) -> StallView {
        StallView {
            tid: self.tid,
            duration_ns: self.duration_ns,
            wall_ns: self.wall_ns,
            blocker: self.blocker,
            hops: self.hops@,
        }
    }
}

/// The devices that the steps `hops` name, in order.
pub open spec fn hop_devices(hops: Seq<Hop>) -> Seq<u32>
    decreases hops.len(),
{
    if hops.len() == 0 {
        Seq::empty()
    } else {
        match hops.last() {
            Hop::OnBlockIo { dev, .. } => hop_devices(hops.drop_last()).push(dev),
            _ => hop_devices(hops.drop_last()),
        }
    }
}

/// The devices that the account of a stall names, in order.
pub open spec fn stall_devices(stall: StallView) -> Seq<u32> {
    let first = match stall.blocker {
        Blocker::BlockIo { dev, .. } => seq![dev],
        _ => Seq::empty(),
    };
    first + hop_devices(stall.hops)
}

impl Stall {
    /// The devices whose names the account of this stall needs, in order.
    pub fn devices(&self) -> (devs: Vec<u32>)
        ensures
            devs@ == stall_devices(self@),
    {
        let mut devs: Vec<u32> = Vec::new();
        if let Blocker::BlockIo { dev, .. } = self.blocker {
            devs.push(dev);
        }
        let ghost first = devs@;
        assert(self.hops@.take(0) =~= Seq::<Hop>::empty());
        assert(devs@ =~= first + hop_devices(self.hops@.take(0)));
        let mut i: usize = 0;
        while i < self.hops.len()
            invariant
                i <= self.hops.len(),
                devs@ == first + hop_devices(self.hops@.take(i as int)),
            decreases self.hops.len() - i,
        {
            assert(self.hops@.take(i + 1).drop_last() =~= self.hops@.take(i as int));
            if let Hop::OnBlockIo { dev, .. } = self.hops[i] {
                devs.push(dev);
            }
            i = i + 1;
            assert(devs@ =~= first + hop_devices(self.hops@.take(i as int)));
        }
        assert(self.hops@.take(i as int) =~= self.hops@);
        assert(first =~= match self@.blocker {
            Blocker::BlockIo { dev, .. } => seq![dev],
            _ => Seq::empty(),
        });
        devs
    }
}

/// The account of the blocked interval `block` that `events` give.
pub open spec fn stall_of(
    realtime_anchor_ns: u64,
    monotonic_anchor_ns: u64,
    events: Seq<TraceEvent>,
    block: TraceEvent,
) -> StallView {
    let cause = matching::resume_cause(events, block.tid, block.timestamp_ns);
    StallView {
        tid: block.tid,
        duration_ns: block.duration_ns,
        wall_ns: trace::wall_ns(
            realtime_anchor_ns,
            monotonic_anchor_ns,
            span_start(block),
        ) as u64,
        blocker: match cause {
            CauseView::Futex(wait) => Blocker::Futex { address: wait.key },
            CauseView::BlockIo(io) => Blocker::BlockIo {
                dev: key_dev(io.key),
                sector: key_sector(io.key),
            },
            CauseView::Unknown => Blocker::Unknown,
        },
        hops: match cause {
            CauseView::Futex(wait) => trail(events, wait, 1),
            CauseView::BlockIo(io) => Seq::empty(),
            CauseView::Unknown => Seq::empty(),
        },
    }
}

/// The start of the span that `e` is stamped at the end of.
fn start_of(e: &TraceEvent) -> (start: u64)
    ensures
        start == span_start(*e),
{
    if e.duration_ns <= e.timestamp_ns {
        e.timestamp_ns - e.duration_ns
    } else {
        0
    }
}

/// Appends the steps back from the futex wait `wait`.
pub fn walk_from_futex_wait(wait: &TraceEvent, typed: &Typed, depth: u32, hops: &mut Vec<Hop>)
    requires
        typed.wf(),
    ensures
        final(hops)@ == old(hops)@ + trail(typed.events@, *wait, depth as nat),
    decreases MAX_CHAIN_DEPTH - depth,
{
    let ghost before = hops@;
    let wake = match typed.waker(wait.key, wait.timestamp_ns) {
        Some(wake) => wake,
        None => {
            assert(hops@ =~= before + trail(typed.events@, *wait, depth as nat));
            return ;
        },
    };
    hops.push(Hop::WokenBy { tid: wake.tid });
    if depth >= MAX_CHAIN_DEPTH {
        assert(hops@ =~= before + trail(typed.events@, *wait, depth as nat));
        return ;
    }
    // The waker's own wake() syscall is brief; the search for what the waker was
    // doing right before it is anchored at the start of that syscall.
    match typed.classify_prior_cause(wake.tid, start_of(wake)) {
        Cause::Futex { wait: next_wait } => {
            hops.push(
                Hop::OnFutex {
                    tid: wake.tid,
                    duration_ns: next_wait.duration_ns,
                    address: next_wait.key,
                },
            );
            walk_from_futex_wait(next_wait, typed, depth + 1, hops);
        },
        Cause::BlockIo { io } => {
            let (dev, sector) = unpack_block_key(io.key);
            hops.push(
                Hop::OnBlockIo { tid: wake.tid, duration_ns: io.duration_ns, dev, sector },
            );
        },
        Cause::Unknown => {},
    }
    assert(hops@ =~= before + trail(typed.events@, *wait, depth as nat));
}

/// The account of the blocked interval `block`.
pub fn trace_stall(block: &TraceEvent, trace: &TraceFile, typed: &Typed) -> (stall: Stall)
    requires
        typed.wf(),
    ensures
        stall@ == stall_of(
            trace.realtime_anchor_ns,
            trace.monotonic_anchor_ns,
            typed.events@,
            *block,
        ),
        stall.tid == block.tid,
        stall.duration_ns == block.duration_ns,
{
    let wall_ns = trace.wall_ns_for(start_of(block));
    let mut hops: Vec<Hop> = Vec::new();
    let blocker = match typed.classify_resume_cause(block.tid, block.timestamp_ns) {
        Cause::Futex { wait } => {
            walk_from_futex_wait(wait, typed, 1, &mut hops);
            Blocker::Futex { address: wait.key }
        },
        Cause::BlockIo { io } => {
            let (dev, sector) = unpack_block_key(io.key);
            Blocker::BlockIo { dev, sector }
        },
        Cause::Unknown => Blocker::Unknown,
    };
    let stall = Stall { tid: block.tid, duration_ns: block.duration_ns, wall_ns, blocker, hops };
    assert(stall@ =~= stall_of(
        trace.realtime_anchor_ns,
        trace.monotonic_anchor_ns,
        typed.events@,
        *block,
    ));
    stall
}

/// Every step of a chain goes back in time. A wait is traced to a wake on its
/// own address that completed no later, and at most the window earlier; the wake
/// is traced to a futex wait or a block I/O of the waker's own thread that had
/// completed when the wake began, at most the window before that.
pub proof fn law_steps_go_back_in_time(events: Seq<TraceEvent>, wait: TraceEvent)
    ensures
        wake_of(events, wait) matches Some(wake) ==> {
            &&& events.contains(wake)
            &&& wake.event_type == EVENT_FUTEX_WAKE
            &&& wake.key == wait.key
            &&& matching::shortly_before(wake.timestamp_ns, wait.timestamp_ns)
            &&& cause_of_wake(events, wake) matches CauseView::Futex(next) ==> {
                &&& events.contains(next)
                &&& next.event_type == EVENT_FUTEX_WAIT
                &&& next.tid == wake.tid
                &&& matching::shortly_before(next.timestamp_ns, span_start(wake))
                &&& next.timestamp_ns <= wake.timestamp_ns <= wait.timestamp_ns
            }
            &&& cause_of_wake(events, wake) matches CauseView::BlockIo(io) ==> {
                &&& events.contains(io)
                &&& io.event_type == EVENT_BLOCK_IO
                &&& io.tid == wake.tid
                &&& matching::shortly_before(io.timestamp_ns, span_start(wake))
                &&& io.timestamp_ns <= wake.timestamp_ns <= wait.timestamp_ns
            }
        },
{
    matching::law_preceding_is_within_window(
        events,
        EVENT_FUTEX_WAKE,
        Subject::Address(wait.key),
        wait.timestamp_ns,
    );
    if let Some(wake) = wake_of(events, wait) {
        let who = Subject::Thread(wake.tid);
        matching::law_preceding_is_within_window(events, EVENT_FUTEX_WAIT, who, span_start(wake));
        matching::law_preceding_is_within_window(events, EVENT_BLOCK_IO, who, span_start(wake));
    }
}

/// A chain goes through at most the allowed number of wakers, so it has at most
/// twice that number of steps, less one.
pub proof fn law_trail_is_bounded(events: Seq<TraceEvent>, wait: TraceEvent, depth: nat)
    requires
        1 <= depth <= MAX_CHAIN_DEPTH,
    ensures
        trail(events, wait, depth).len() <= 2 * (MAX_CHAIN_DEPTH - depth) + 1,
        depth == 1 ==> trail(events, wait, depth).len() <= 2 * MAX_CHAIN_DEPTH - 1,
    decreases MAX_CHAIN_DEPTH - depth,
{
    if let Some(wake) = wake_of(events, wait) {
        if depth < MAX_CHAIN_DEPTH {
            if let CauseView::Futex(next) = cause_of_wake(events, wake) {
                law_trail_is_bounded(events, next, depth + 1);
            }
        }
    }
}

/// A chain alternates between a waker and what that same thread had been
/// waiting for, and a block I/O is always its end.
pub proof fn law_trail_alternates(events: Seq<TraceEvent>, wait: TraceEvent, depth: nat)
    ensures
        forall|i: int|
            #![trigger trail(events, wait, depth)[i]]
            0 <= i < trail(events, wait, depth).len() ==> {
                let hop = trail(events, wait, depth)[i];
                &&& hop is WokenBy <==> i % 2 == 0
                &&& hop is OnBlockIo ==> i == trail(events, wait, depth).len() - 1
                &&& hop matches Hop::OnFutex { tid, .. } ==> trail(events, wait, depth)[i - 1] == (
                Hop::WokenBy { tid })
                &&& hop matches Hop::OnBlockIo { tid, .. } ==> trail(events, wait, depth)[i - 1]
                    == (Hop::WokenBy { tid })
            },
    decreases MAX_CHAIN_DEPTH - depth,
{
    if let Some(wake) = wake_of(events, wait) {
        if depth < MAX_CHAIN_DEPTH {
            if let CauseView::Futex(next) = cause_of_wake(events, wake) {
                law_trail_alternates(events, next, depth + 1);
                let whole = trail(events, wait, depth);
                let rest = trail(events, next, depth + 1);
                assert forall|i: int| 2 <= i < whole.len() implies #[trigger] whole[i] == rest[i
                    - 2] by {}
                assert forall|i: int| 0 <= i < whole.len() implies {
                    let hop = #[trigger] whole[i];
                    &&& hop is WokenBy <==> i % 2 == 0
                    &&& hop is OnBlockIo ==> i == whole.len() - 1
                    &&& hop matches Hop::OnFutex { tid, .. } ==> whole[i - 1] == (Hop::WokenBy {
                        tid,
                    })
                    &&& hop matches Hop::OnBlockIo { tid, .. } ==> whole[i - 1] == (Hop::WokenBy {
                        tid,
                    })
                } by {
                    if i >= 2 {
                        let hop = rest[i - 2];
                        assert(whole[i] == hop);
                        if i >= 3 {
                            assert(whole[i - 1] == rest[i - 3]);
                        }
                    }
                }
            }
        }
    }
}

/// A trail begins exactly where a wake on the same address is in range.
pub proof fn law_trail_ends_without_wake(events: Seq<TraceEvent>, wait: TraceEvent, depth: nat)
    ensures
        trail(events, wait, depth).len() == 0 <==> forall|i: int|
            !matching::precedes(
                events,
                EVENT_FUTEX_WAKE,
                Subject::Address(wait.key),
                wait.timestamp_ns,
                i,
            ),
{
    matching::law_preceding_found_iff_in_range(
        events,
        EVENT_FUTEX_WAKE,
        Subject::Address(wait.key),
        wait.timestamp_ns,
    );
}

/// A stall on block I/O, or on nothing that is known, is its own root: no step
/// leads further back.
pub proof fn law_only_futex_stalls_have_hops(
    realtime_anchor_ns: u64,
    monotonic_anchor_ns: u64,
    events: Seq<TraceEvent>,
    block: TraceEvent,
)
    ensures
        stall_of(realtime_anchor_ns, monotonic_anchor_ns, events, block).hops.len() > 0
            ==> stall_of(realtime_anchor_ns, monotonic_anchor_ns, events, block).blocker is Futex,
        stall_of(realtime_anchor_ns, monotonic_anchor_ns, events, block).hops.len() <= 2
            * MAX_CHAIN_DEPTH - 1,
{
    if let CauseView::Futex(wait) = matching::resume_cause(events, block.tid, block.timestamp_ns) {
        law_trail_is_bounded(events, wait, 1);
    }
}

/// A span starts as long before its stamp as it lasts, and never before the start
/// of the clock.
pub proof fn law_span_starts_its_length_before_its_stamp(e: TraceEvent)
    ensures
        e.duration_ns <= e.timestamp_ns ==> span_start(e) + e.duration_ns == e.timestamp_ns,
        e.timestamp_ns < e.duration_ns ==> span_start(e) == 0,
{
}

/// The parts that a stall or a step names of a block I/O are the device and the
/// sector of the request.
pub proof fn law_key_parts_are_device_and_sector(key: u64, dev: u32, sector: u32)
    requires
        key == dev * 0x1_0000_0000 + sector,
    ensures
        key_dev(key) == dev,
        key_sector(key) == sector,
{
}

/// The wake that the event at `i` is, is the one that the wait is traced to.
proof fn lemma_wake_is_found(events: Seq<TraceEvent>, wait: TraceEvent, i: int)
    requires
        0 <= i < events.len(),
        events[i].event_type == 2,
        events[i].key == wait.key,
        events[i].timestamp_ns <= wait.timestamp_ns,
        wait.timestamp_ns - events[i].timestamp_ns <= 5_000_000,
        forall|j: int|
            0 <= j < events.len() && (#[trigger] events[j]).event_type == 2 && events[j].key
                == wait.key && events[j].timestamp_ns <= wait.timestamp_ns
                ==> events[j].timestamp_ns < events[i].timestamp_ns || (events[j].timestamp_ns
                == events[i].timestamp_ns && j <= i),
    ensures
        wake_of(events, wait) == Some(events[i]),
{
    matching::law_backward_search_finds_the_latest(events, 2, 0, wait.key, wait.timestamp_ns);
    assert(events[i].event_type == 2);
    let wake = wake_of(events, wait)->0;
    let k = choose|k: int|
        0 <= k < events.len() && #[trigger] events[k] == wake && (forall|j: int|
            0 <= j < events.len() && (#[trigger] events[j]).event_type == 2 && events[j].key
                == wait.key && events[j].timestamp_ns <= wait.timestamp_ns && wait.timestamp_ns
                - events[j].timestamp_ns <= 5_000_000 ==> events[j].timestamp_ns
                < wake.timestamp_ns || (events[j].timestamp_ns == wake.timestamp_ns && j <= k));
    assert(events[k] == wake);
}

/// A wait is traced to the latest wake on its address: the first step names the
/// thread of a futex wake on that address that completed at or before the wait and
/// at most five milliseconds earlier, and no such wake completed later, or at the
/// same time and was recorded later. There is no step at all only where there is
/// no such wake.
pub proof fn law_first_step_names_the_latest_waker(
    events: Seq<TraceEvent>,
    wait: TraceEvent,
    depth: nat,
)
    ensures
        trail(events, wait, depth).len() > 0 ==> exists|i: int|
            0 <= i < events.len() && (#[trigger] events[i]).event_type == 2 && events[i].key
                == wait.key && events[i].timestamp_ns <= wait.timestamp_ns && wait.timestamp_ns
                - events[i].timestamp_ns <= 5_000_000 && trail(events, wait, depth)[0] == (
            Hop::WokenBy { tid: events[i].tid }) && (forall|j: int|
                0 <= j < events.len() && (#[trigger] events[j]).event_type == 2 && events[j].key
                    == wait.key && events[j].timestamp_ns <= wait.timestamp_ns
                    ==> events[j].timestamp_ns < events[i].timestamp_ns || (events[j].timestamp_ns
                    == events[i].timestamp_ns && j <= i)),
        trail(events, wait, depth).len() == 0 ==> forall|j: int|
            0 <= j < events.len() && (#[trigger] events[j]).event_type == 2 && events[j].key
                == wait.key ==> events[j].timestamp_ns > wait.timestamp_ns || wait.timestamp_ns
                - events[j].timestamp_ns > 5_000_000,
{
    matching::law_backward_search_finds_the_latest(events, 2, 0, wait.key, wait.timestamp_ns);
    if let Some(wake) = wake_of(events, wait) {
        let i = choose|i: int|
            0 <= i < events.len() && #[trigger] events[i] == wake && (forall|j: int|
                0 <= j < events.len() && (#[trigger] events[j]).event_type == 2 && events[j].key
                    == wait.key && events[j].timestamp_ns <= wait.timestamp_ns
                    && wait.timestamp_ns - events[j].timestamp_ns <= 5_000_000
                    ==> events[j].timestamp_ns < wake.timestamp_ns || (events[j].timestamp_ns
                    == wake.timestamp_ns && j <= i));
        assert(events[i] == wake);
        assert forall|j: int|
            0 <= j < events.len() && (#[trigger] events[j]).event_type == 2 && events[j].key
                == wait.key && events[j].timestamp_ns <= wait.timestamp_ns
            implies events[j].timestamp_ns < events[i].timestamp_ns || (events[j].timestamp_ns
            == events[i].timestamp_ns && j <= i) by {
            if wait.timestamp_ns - events[j].timestamp_ns > 5_000_000 {
                assert(events[j].timestamp_ns < events[i].timestamp_ns);
            }
        }
        assert(trail(events, wait, depth)[0] == (Hop::WokenBy { tid: events[i].tid }));
    }
}

/// At the eighth waker the trail ends, whatever that waker had been waiting for.
pub proof fn law_trail_ends_at_the_eighth_waker(
    events: Seq<TraceEvent>,
    wait: TraceEvent,
    depth: nat,
    i: int,
)
    requires
        depth >= 8,
        0 <= i < events.len(),
        events[i].event_type == 2,
        events[i].key == wait.key,
        events[i].timestamp_ns <= wait.timestamp_ns,
        wait.timestamp_ns - events[i].timestamp_ns <= 5_000_000,
        forall|j: int|
            0 <= j < events.len() && (#[trigger] events[j]).event_type == 2 && events[j].key
                == wait.key && events[j].timestamp_ns <= wait.timestamp_ns
                ==> events[j].timestamp_ns < events[i].timestamp_ns || (events[j].timestamp_ns
                == events[i].timestamp_ns && j <= i),
    ensures
        trail(events, wait, depth) == seq![Hop::WokenBy { tid: events[i].tid }],
{
    lemma_wake_is_found(events, wait, i);
}

/// Where the latest wake came from a thread that the events say nothing of, just
/// before it began to wake, the trail ends at that thread.
pub proof fn law_trail_ends_at_an_unexplained_waker(
    events: Seq<TraceEvent>,
    wait: TraceEvent,
    depth: nat,
    i: int,
    start: u64,
)
    requires
        0 <= i < events.len(),
        events[i].event_type == 2,
        events[i].key == wait.key,
        events[i].timestamp_ns <= wait.timestamp_ns,
        wait.timestamp_ns - events[i].timestamp_ns <= 5_000_000,
        forall|j: int|
            0 <= j < events.len() && (#[trigger] events[j]).event_type == 2 && events[j].key
                == wait.key && events[j].timestamp_ns <= wait.timestamp_ns
                ==> events[j].timestamp_ns < events[i].timestamp_ns || (events[j].timestamp_ns
                == events[i].timestamp_ns && j <= i),
        start + events[i].duration_ns == events[i].timestamp_ns || (start == 0
            && events[i].timestamp_ns < events[i].duration_ns),
        forall|j: int|
            0 <= j < events.len() && (#[trigger] events[j]).tid == events[i].tid && (
            events[j].event_type == 1 || events[j].event_type == 3) ==> events[j].timestamp_ns
                > start || start - events[j].timestamp_ns > 5_000_000,
    ensures
        trail(events, wait, depth) == seq![Hop::WokenBy { tid: events[i].tid }],
{
    lemma_wake_is_found(events, wait, i);
    matching::law_hold_up_is_the_last_thing_completed(events, events[i].tid, start);
}

/// Where the last thing that the waker completed before it began to wake is a
/// block I/O, the trail ends there, and names the waker, how long the request took,
/// and its device and sector.
pub proof fn law_trail_ends_at_the_wakers_block_io(
    events: Seq<TraceEvent>,
    wait: TraceEvent,
    depth: nat,
    i: int,
    start: u64,
    m: int,
    dev: u32,
    sector: u32,
)
    requires
        depth < 8,
        0 <= i < events.len(),
        events[i].event_type == 2,
        events[i].key == wait.key,
        events[i].timestamp_ns <= wait.timestamp_ns,
        wait.timestamp_ns - events[i].timestamp_ns <= 5_000_000,
        forall|j: int|
            0 <= j < events.len() && (#[trigger] events[j]).event_type == 2 && events[j].key
                == wait.key && events[j].timestamp_ns <= wait.timestamp_ns
                ==> events[j].timestamp_ns < events[i].timestamp_ns || (events[j].timestamp_ns
                == events[i].timestamp_ns && j <= i),
        start + events[i].duration_ns == events[i].timestamp_ns || (start == 0
            && events[i].timestamp_ns < events[i].duration_ns),
        0 <= m < events.len(),
        events[m].event_type == 3,
        events[m].tid == events[i].tid,
        events[m].timestamp_ns <= start,
        start - events[m].timestamp_ns <= 5_000_000,
        forall|j: int|
            0 <= j < events.len() && (#[trigger] events[j]).tid == events[i].tid
                && events[j].timestamp_ns <= start ==> {
                &&& events[j].event_type == 1 ==> events[j].timestamp_ns < events[m].timestamp_ns
                &&& events[j].event_type == 3 ==> events[j].timestamp_ns < events[m].timestamp_ns || (
                events[j].timestamp_ns == events[m].timestamp_ns && j <= m)
            },
        events[m].key == dev * 0x1_0000_0000 + sector,
    ensures
        trail(events, wait, depth) == seq![
            Hop::WokenBy { tid: events[i].tid },
            Hop::OnBlockIo {
                tid: events[i].tid,
                duration_ns: events[m].duration_ns,
                dev,
                sector,
            },
        ],
{
    lemma_wake_is_found(events, wait, i);
    law_key_parts_are_device_and_sector(events[m].key, dev, sector);
    matching::law_hold_up_is_the_last_thing_completed(events, events[i].tid, start);
    assert(matching::prior_cause(events, events[i].tid, start) == CauseView::BlockIo(events[m]));
}

/// Where the last thing that the waker completed before it began to wake is a
/// futex wait, the trail names the waker, how long it waited and for which address,
/// and goes on from that wait, one waker deeper.
pub proof fn law_trail_goes_on_from_the_wakers_wait(
    events: Seq<TraceEvent>,
    wait: TraceEvent,
    depth: nat,
    i: int,
    start: u64,
    m: int,
)
    requires
        depth < 8,
        0 <= i < events.len(),
        events[i].event_type == 2,
        events[i].key == wait.key,
        events[i].timestamp_ns <= wait.timestamp_ns,
        wait.timestamp_ns - events[i].timestamp_ns <= 5_000_000,
        forall|j: int|
            0 <= j < events.len() && (#[trigger] events[j]).event_type == 2 && events[j].key
                == wait.key && events[j].timestamp_ns <= wait.timestamp_ns
                ==> events[j].timestamp_ns < events[i].timestamp_ns || (events[j].timestamp_ns
                == events[i].timestamp_ns && j <= i),
        start + events[i].duration_ns == events[i].timestamp_ns || (start == 0
            && events[i].timestamp_ns < events[i].duration_ns),
        0 <= m < events.len(),
        events[m].event_type == 1,
        events[m].tid == events[i].tid,
        events[m].timestamp_ns <= start,
        start - events[m].timestamp_ns <= 5_000_000,
        forall|j: int|
            0 <= j < events.len() && (#[trigger] events[j]).tid == events[i].tid
                && events[j].timestamp_ns <= start ==> {
                &&& events[j].event_type == 1 ==> events[j].timestamp_ns < events[m].timestamp_ns || (
                events[j].timestamp_ns == events[m].timestamp_ns && j <= m)
                &&& events[j].event_type == 3 ==> events[j].timestamp_ns <= events[m].timestamp_ns
            },
    ensures
        trail(events, wait, depth) == seq![
            Hop::WokenBy { tid: events[i].tid },
            Hop::OnFutex {
                tid: events[i].tid,
                duration_ns: events[m].duration_ns,
                address: events[m].key,
            },
        ] + trail(events, events[m], depth + 1),
{
    lemma_wake_is_found(events, wait, i);
    matching::law_hold_up_is_the_last_thing_completed(events, events[i].tid, start);
    assert(matching::prior_cause(events, events[i].tid, start) == CauseView::Futex(events[m]));
}

/// The account of a blocked interval is about its thread, its length and the
/// wall-clock time at which it began, whatever it is traced to.
pub proof fn law_stall_is_that_of_its_interval(
    realtime_anchor_ns: u64,
    monotonic_anchor_ns: u64,
    events: Seq<TraceEvent>,
    block: TraceEvent,
)
    ensures
        ({
            let stall = stall_of(realtime_anchor_ns, monotonic_anchor_ns, events, block);
            let began = realtime_anchor_ns - monotonic_anchor_ns + (if block.duration_ns
                <= block.timestamp_ns {
                block.timestamp_ns - block.duration_ns
            } else {
                0
            });
            &&& stall.tid == block.tid
            &&& stall.duration_ns == block.duration_ns
            &&& 0 <= began <= u64::MAX ==> stall.wall_ns == began
            &&& began < 0 ==> stall.wall_ns == 0
            &&& began > u64::MAX ==> stall.wall_ns == began - 0x1_0000_0000_0000_0000
        }),
{
}

/// Where the thread's earliest futex wait that completed at or after the resume is
/// in range and no block I/O of it is closer, the interval was blocked on that
/// wait's address, and the trail goes back from that wait.
pub proof fn law_stall_is_on_the_earliest_futex_wait(
    realtime_anchor_ns: u64,
    monotonic_anchor_ns: u64,
    events: Seq<TraceEvent>,
    block: TraceEvent,
    i: int,
)
    requires
        0 <= i < events.len(),
        events[i].event_type == 1,
        events[i].tid == block.tid,
        block.timestamp_ns <= events[i].timestamp_ns,
        events[i].timestamp_ns - block.timestamp_ns <= 5_000_000,
        forall|j: int|
            0 <= j < events.len() && (#[trigger] events[j]).event_type == 1 && events[j].tid
                == block.tid && block.timestamp_ns <= events[j].timestamp_ns
                ==> events[i].timestamp_ns < events[j].timestamp_ns || (events[i].timestamp_ns
                == events[j].timestamp_ns && i <= j),
        forall|j: int|
            0 <= j < events.len() && (#[trigger] events[j]).event_type == 3 && events[j].tid
                == block.tid && events[j].timestamp_ns <= block.timestamp_ns
                ==> events[i].timestamp_ns - block.timestamp_ns <= block.timestamp_ns
                - events[j].timestamp_ns,
    ensures
        ({
            let stall = stall_of(realtime_anchor_ns, monotonic_anchor_ns, events, block);
            &&& stall.blocker == (Blocker::Futex { address: events[i].key })
            &&& stall.hops == trail(events, events[i], 1)
        }),
{
    matching::law_resume_is_explained_by_the_nearest(events, block.tid, block.timestamp_ns);
    assert(matching::resume_cause(events, block.tid, block.timestamp_ns) == CauseView::Futex(
        events[i],
    ));
}

/// Where the thread's latest block I/O that completed at or before the resume is in
/// range and every futex wait of it is further off, the interval was blocked on
/// that request's device and sector, and that is the root.
pub proof fn law_stall_is_on_the_latest_block_io(
    realtime_anchor_ns: u64,
    monotonic_anchor_ns: u64,
    events: Seq<TraceEvent>,
    block: TraceEvent,
    i: int,
    dev: u32,
    sector: u32,
)
    requires
        0 <= i < events.len(),
        events[i].event_type == 3,
        events[i].tid == block.tid,
        events[i].timestamp_ns <= block.timestamp_ns,
        block.timestamp_ns - events[i].timestamp_ns <= 5_000_000,
        forall|j: int|
            0 <= j < events.len() && (#[trigger] events[j]).event_type == 3 && events[j].tid
                == block.tid && events[j].timestamp_ns <= block.timestamp_ns
                ==> events[j].timestamp_ns < events[i].timestamp_ns || (events[j].timestamp_ns
                == events[i].timestamp_ns && j <= i),
        forall|j: int|
            0 <= j < events.len() && (#[trigger] events[j]).event_type == 1 && events[j].tid
                == block.tid && block.timestamp_ns <= events[j].timestamp_ns
                ==> block.timestamp_ns - events[i].timestamp_ns < events[j].timestamp_ns
                - block.timestamp_ns,
        events[i].key == dev * 0x1_0000_0000 + sector,
    ensures
        ({
            let stall = stall_of(realtime_anchor_ns, monotonic_anchor_ns, events, block);
            &&& stall.blocker == (Blocker::BlockIo { dev, sector })
            &&& stall.hops.len() == 0
        }),
{
    law_key_parts_are_device_and_sector(events[i].key, dev, sector);
    matching::law_resume_is_explained_by_the_nearest(events, block.tid, block.timestamp_ns);
    assert(matching::resume_cause(events, block.tid, block.timestamp_ns) == CauseView::BlockIo(
        events[i],
    ));
}

/// Where the thread has neither a futex wait in range after the resume nor a block
/// I/O in range before it, what the interval was blocked on is unknown.
pub proof fn law_stall_without_candidates_is_unexplained(
    realtime_anchor_ns: u64,
    monotonic_anchor_ns: u64,
    events: Seq<TraceEvent>,
    block: TraceEvent,
)
    requires
        forall|j: int|
            0 <= j < events.len() && (#[trigger] events[j]).tid == block.tid ==> {
                &&& events[j].event_type == 1 ==> events[j].timestamp_ns < block.timestamp_ns
                    || events[j].timestamp_ns - block.timestamp_ns > 5_000_000
                &&& events[j].event_type == 3 ==> events[j].timestamp_ns > block.timestamp_ns
                    || block.timestamp_ns - events[j].timestamp_ns > 5_000_000
            },
    ensures
        ({
            let stall = stall_of(realtime_anchor_ns, monotonic_anchor_ns, events, block);
            &&& stall.blocker == Blocker::Unknown
            &&& stall.hops.len() == 0
        }),
{
    matching::law_resume_is_explained_by_the_nearest(events, block.tid, block.timestamp_ns);
}

/// The devices of a list of steps are those of its parts, one behind the other; a
/// step has a device only where it is on block I/O.
pub proof fn law_devices_are_those_of_the_block_io_steps(a: Seq<Hop>, b: Seq<Hop>, hop: Hop)
    ensures
        hop_devices(Seq::<Hop>::empty()).len() == 0,
        hop_devices(a + b) == hop_devices(a) + hop_devices(b),
        hop_devices(seq![hop]) == (match hop {
            Hop::OnBlockIo { dev, .. } => seq![dev],
            Hop::OnFutex { .. } => Seq::empty(),
            Hop::WokenBy { .. } => Seq::empty(),
        }),
    decreases b.len(),
{
    assert(seq![hop].drop_last() =~= Seq::<Hop>::empty());
    assert(hop_devices(Seq::<Hop>::empty()) =~= Seq::<u32>::empty());
    if b.len() == 0 {
        assert(a + b =~= a);
        assert(hop_devices(a) + hop_devices(b) =~= hop_devices(a));
    } else {
        law_devices_are_those_of_the_block_io_steps(a, b.drop_last(), hop);
        assert((a + b).drop_last() =~= a + b.drop_last());
        assert((a + b).last() == b.last());
        assert(hop_devices(a + b) =~= hop_devices(a) + hop_devices(b));
    }
}

/// The devices of an account are the one that the interval was blocked on, if any,
/// and then those of the steps.
pub proof fn law_devices_of_a_stall(stall: StallView)
    ensures
        stall_devices(stall) == (match stall.blocker {
            Blocker::BlockIo { dev, .. } => seq![dev],
            Blocker::Futex { .. } => Seq::empty(),
            Blocker::Unknown => Seq::empty(),
        }) + hop_devices(stall.hops),
{
}

} // verus!
