//! The probes together with the tables that they remember spans in, as one
//! state machine: a tracepoint fires, the tables change, and an event may be
//! emitted.

use std::collections::HashMap;

use vstd::prelude::*;

use crate::event;
use crate::event::Event;
use crate::probe;
use crate::probe::{BlockIoStart, BlockStart, FutexStart};
use crate::vmlinux::{
    TraceEventRawBlockRq, TraceEventRawBlockRqCompletion, TraceEventRawSchedSwitch,
    TraceEventRawSysEnter,
};

verus! {

broadcast use vstd::std_specs::hash::group_hash_axioms;

/// How many off-CPU threads, and how many threads in `futex(2)`, are remembered.
pub const THREAD_CAPACITY: usize = 10240;

/// How many block I/O requests in flight are remembered.
pub const REQUEST_CAPACITY: usize = 4096;

/// A tracepoint that fires, with what its probe reads of the kernel: the
/// tracepoint's record, the thread in whose context it fires, and the time.
pub enum Tracepoint {
    SchedSwitch { evt: TraceEventRawSchedSwitch, tgid: u32, ts: u64 },
    FutexEnter { evt: TraceEventRawSysEnter, tgid: u32, tid: u32, comm: [u8; 16], ts: u64 },
    FutexExit { tid: u32, ts: u64 },
    BlockRqIssue { evt: TraceEventRawBlockRq, tgid: u32, tid: u32, comm: [u8; 16], ts: u64 },
    BlockRqComplete { evt: TraceEventRawBlockRqCompletion, ts: u64 },
}

impl Tracepoint {
    /// When the tracepoint fires.
    pub open spec fn time(self) -> u64 {
        match self {
            Tracepoint::SchedSwitch { ts, .. } => ts,
            Tracepoint::FutexEnter { ts, .. } => ts,
            Tracepoint::FutexExit { ts, .. } => ts,
            Tracepoint::BlockRqIssue { ts, .. } => ts,
            Tracepoint::BlockRqComplete { ts, .. } => ts,
        }
    }

    /// Whether the tracepoint puts `tid` on or takes it off a CPU.
    pub open spec fn switches(self, tid: u32) -> bool {
        match self {
            Tracepoint::SchedSwitch { evt, .. } => evt.prev_pid as u32 == tid || evt.next_pid as u32
                == tid,
            _ => false,
        }
    }

    /// Whether the tracepoint is the start or the end of a futex call of `tid`.
    pub open spec fn futex_call_of(self, on: u32) -> bool {
        match self {
            Tracepoint::FutexEnter { tid, .. } => tid == on,
            Tracepoint::FutexExit { tid, .. } => tid == on,
            _ => false,
        }
    }

    /// Whether the tracepoint is the start or the end of a request under `key`.
    pub open spec fn request_under(self, key: u64) -> bool {
        match self {
            Tracepoint::BlockRqIssue { evt, .. } => event::block_key(evt.dev, evt.sector) == key,
            Tracepoint::BlockRqComplete { evt, .. } => event::block_key(evt.dev, evt.sector)
                == key,
            _ => false,
        }
    }
}

/// What the probes remember.
#[verifier::ext_equal]
pub struct TablesView {
    pub off_cpu: Map<u32, BlockStart>,
    pub in_futex: Map<u32, FutexStart>,
    pub in_flight: Map<u64, BlockIoStart>,
}

/// What the probes remember.
pub struct Tables {
    off_cpu: HashMap<u32, BlockStart>,
    in_futex: HashMap<u32, FutexStart>,
    in_flight: HashMap<u64, BlockIoStart>,
}

impl View for Tables {
    type V = TablesView;

    closed spec fn view(&self) -> TablesView {
        TablesView {
            off_cpu: self.off_cpu@,
            in_futex: self.in_futex@,
            in_flight: self.in_flight@,
        }
    }
}

/// No span has begun.
pub open spec fn no_spans() -> TablesView {
    TablesView { off_cpu: Map::empty(), in_futex: Map::empty(), in_flight: Map::empty() }
}

/// A table with one more entry. An entry under the same key is replaced; a full
/// table takes no new key.
pub open spec fn put<K, V>(table: Map<K, V>, capacity: nat, entry: Option<(K, V)>) -> Map<K, V> {
    match entry {
        Some((key, value)) => if table.contains_key(key) || table.len() < capacity {
            table.insert(key, value)
        } else {
            table
        },
        None => table,
    }
}

/// The entry under `key`, if there is one.
pub open spec fn entry<K, V>(table: Map<K, V>, key: K) -> Option<V> {
    if table.contains_key(key) {
        Some(table[key])
    } else {
        None
    }
}

/// What the tracepoint `tp` does to the tables, and the event that it emits,
/// while `target` is the thread group being traced (0: none yet).
pub open spec fn fired(tables: TablesView, target: u32, tp: Tracepoint) -> (
    TablesView,
    Option<Event>,
) {
    match tp {
        Tracepoint::SchedSwitch { evt, tgid, ts } => if target == 0 {
            (tables, None)
        } else {
            let off_cpu = put(
                tables.off_cpu,
                THREAD_CAPACITY as nat,
                probe::switch_stash(target, evt, tgid, ts),
            );
            let tid = evt.next_pid as u32;
            (
                TablesView { off_cpu: off_cpu.remove(tid), ..tables },
                match entry(off_cpu, tid) {
                    Some(start) => Some(probe::resumed_event(tid, ts, start)),
                    None => None,
                },
            )
        },
        Tracepoint::FutexEnter { evt, tgid, tid, comm, ts } => (
            TablesView {
                in_futex: put(
                    tables.in_futex,
                    THREAD_CAPACITY as nat,
                    probe::futex_stash(target, evt, tgid, tid, comm, ts),
                ),
                ..tables
            },
            None,
        ),
        Tracepoint::FutexExit { tid, ts } => (
            TablesView { in_futex: tables.in_futex.remove(tid), ..tables },
            match entry(tables.in_futex, tid) {
                Some(start) => probe::futex_event(tid, ts, start),
                None => None,
            },
        ),
        Tracepoint::BlockRqIssue { evt, tgid, tid, comm, ts } => (
            TablesView {
                in_flight: put(
                    tables.in_flight,
                    REQUEST_CAPACITY as nat,
                    probe::issue_stash(target, evt, tgid, tid, comm, ts),
                ),
                ..tables
            },
            None,
        ),
        Tracepoint::BlockRqComplete { evt, ts } => {
            let key = event::block_key(evt.dev, evt.sector) as u64;
            (
                TablesView { in_flight: tables.in_flight.remove(key), ..tables },
                match entry(tables.in_flight, key) {
                    Some(start) => Some(probe::completion_event(key, ts, start)),
                    None => None,
                },
            )
        },
    }
}

/// Puts an entry into a table of threads.
fn put_thread<V>(table: &mut HashMap<u32, V>, stash: Option<(u32, V)>)
    ensures
        final(table)@ == put(old(table)@, THREAD_CAPACITY as nat, stash),
{
    if let Some((tid, start)) = stash {
        if table.contains_key(&tid) || table.len() < THREAD_CAPACITY {
            table.insert(tid, start);
        }
    }
}

impl Tables {
    pub fn new() -> (tables: Self)
        ensures
            tables@ == no_spans(),
            tables@.off_cpu == Map::<u32, BlockStart>::empty(),
            tables@.in_futex == Map::<u32, FutexStart>::empty(),
            tables@.in_flight == Map::<u64, BlockIoStart>::empty(),
    {
        let tables = Tables {
            off_cpu: HashMap::new(),
            in_futex: HashMap::new(),
            in_flight: HashMap::new(),
        };
        assert(tables@ =~= no_spans());
        tables
    }

    fn sched_switch(
        &mut self,
        target: u32,
        evt: &TraceEventRawSchedSwitch,
        tgid: u32,
        ts: u64,
    ) -> (emit: Option<Event>)
        ensures
            (final(self)@, emit) == fired(
                old(self)@,
                target,
                Tracepoint::SchedSwitch { evt: *evt, tgid, ts },
            ),
    {
        let plan = probe::sched_switch(target, evt, tgid, ts);
        put_thread(&mut self.off_cpu, plan.stash);
        match plan.incoming {
            Some(tid) => {
                let found = self.off_cpu.remove(&tid);
                let emit = probe::sched_switch_resume(tid, ts, found);
                assert(self@ =~= fired(
                    old(self)@,
                    target,
                    Tracepoint::SchedSwitch { evt: *evt, tgid, ts },
                ).0);
                emit
            },
            None => None,
        }
    }

    fn futex_exit(&mut self, tid: u32, ts: u64) -> (emit: Option<Event>)
        ensures
            (final(self)@, emit) == fired(old(self)@, 0, Tracepoint::FutexExit { tid, ts }),
    {
        let found = self.in_futex.remove(&tid);
        let emit = probe::futex_exit(tid, ts, found);
        assert(self@ =~= fired(old(self)@, 0, Tracepoint::FutexExit { tid, ts }).0);
        emit
    }

    fn block_rq_complete(
        &mut self,
        evt: &TraceEventRawBlockRqCompletion,
        ts: u64,
    ) -> (emit: Option<Event>)
        ensures
            (final(self)@, emit) == fired(
                old(self)@,
                0,
                Tracepoint::BlockRqComplete { evt: *evt, ts },
            ),
    {
        let key = probe::completed_key(evt);
        let found = self.in_flight.remove(&key);
        let emit = probe::block_rq_complete(key, ts, found);
        assert(self@ =~= fired(
            old(self)@,
            0,
            Tracepoint::BlockRqComplete { evt: *evt, ts },
        ).0);
        emit
    }

    /// The tracepoint `tp` fires while `target` is the thread group being
    /// traced.
    pub fn fire(&mut self, target: u32, tp: &Tracepoint) -> (emit: Option<Event>)
        ensures
            (final(self)@, emit) == fired(old(self)@, target, *tp),
    {
        match tp {
            Tracepoint::SchedSwitch { evt, tgid, ts } => self.sched_switch(target, evt, *tgid, *ts),
            Tracepoint::FutexEnter { evt, tgid, tid, comm, ts } => {
                let stash = probe::futex_enter(target, evt, *tgid, *tid, *comm, *ts);
                put_thread(&mut self.in_futex, stash);
                assert(self@ =~= fired(old(self)@, target, *tp).0);
                None
            },
            Tracepoint::FutexExit { tid, ts } => self.futex_exit(*tid, *ts),
            Tracepoint::BlockRqIssue { evt, tgid, tid, comm, ts } => {
                let stash = probe::block_rq_issue(target, evt, *tgid, *tid, *comm, *ts);
                if let Some((key, start)) = stash {
                    if self.in_flight.contains_key(&key) || self.in_flight.len()
                        < REQUEST_CAPACITY {
                        self.in_flight.insert(key, start);
                    }
                }
                assert(self@ =~= fired(old(self)@, target, *tp).0);
                None
            },
            Tracepoint::BlockRqComplete { evt, ts } => self.block_rq_complete(evt, *ts),
        }
    }
}

/// Everything that is remembered belongs to the thread group `tgid`.
pub open spec fn all_of(tables: TablesView, tgid: u32) -> bool {
    &&& forall|k: u32| #[trigger]
        tables.off_cpu.contains_key(k) ==> tables.off_cpu[k].tgid == tgid
    &&& forall|k: u32| #[trigger]
        tables.in_futex.contains_key(k) ==> tables.in_futex[k].tgid == tgid
    &&& forall|k: u64| #[trigger]
        tables.in_flight.contains_key(k) ==> tables.in_flight[k].tgid == tgid
}

/// One firing, with the target that was set at the time.
pub struct Firing {
    pub target: u32,
    pub tp: Tracepoint,
}

/// The tables after the firings `run`.
pub open spec fn tables_after(tables: TablesView, run: Seq<Firing>) -> TablesView
    decreases run.len(),
{
    if run.len() == 0 {
        tables
    } else {
        fired(tables_after(tables, run.drop_last()), run.last().target, run.last().tp).0
    }
}

/// The events that the firings `run` emit, in order.
pub open spec fn emitted(tables: TablesView, run: Seq<Firing>) -> Seq<Event>
    decreases run.len(),
{
    if run.len() == 0 {
        Seq::empty()
    } else {
        let earlier = emitted(tables, run.drop_last());
        match fired(
            tables_after(tables, run.drop_last()),
            run.last().target,
            run.last().tp,
        ).1 {
            Some(ev) => earlier.push(ev),
            None => earlier,
        }
    }
}

/// Every firing happened with no target set, or with `tgid` as the target.
pub open spec fn aimed_at(run: Seq<Firing>, tgid: u32) -> bool {
    forall|i: int|
        0 <= i < run.len() ==> (#[trigger] run[i]).target == 0 || run[i].target == tgid
}

/// Only the target is reported: whatever fires, before the target is set and
/// after, every event is of the target's thread group, and so is everything
/// that is still remembered.
pub proof fn law_only_the_target_is_reported(run: Seq<Firing>, tgid: u32)
    requires
        aimed_at(run, tgid),
    ensures
        all_of(tables_after(no_spans(), run), tgid),
        forall|i: int|
            0 <= i < emitted(no_spans(), run).len() ==> (#[trigger] emitted(
                no_spans(),
                run,
            )[i]).pid == tgid,
    decreases run.len(),
{
    if run.len() > 0 {
        let earlier = run.drop_last();
        assert(aimed_at(earlier, tgid)) by {
            assert forall|i: int| 0 <= i < earlier.len() implies (#[trigger] earlier[i]).target == 0
                || earlier[i].target == tgid by {
                assert(earlier[i] == run[i]);
            }
        }
        law_only_the_target_is_reported(earlier, tgid);
        let last = run[run.len() - 1];
        let before = tables_after(no_spans(), earlier);
        assert(last.target == 0 || last.target == tgid);
        assert(fired(before, last.target, last.tp).1 matches Some(ev) ==> ev.pid == tgid);
        let events = emitted(no_spans(), run);
        assert forall|i: int| 0 <= i < events.len() implies (#[trigger] events[i]).pid == tgid by {
            if i < emitted(no_spans(), earlier).len() {
                assert(events[i] == emitted(no_spans(), earlier)[i]);
            }
        }
    }
}

/// Nothing is recorded before a target is set.
pub proof fn law_nothing_before_the_target_is_set(run: Seq<Firing>)
    requires
        aimed_at(run, 0),
    ensures
        tables_after(no_spans(), run) == no_spans(),
        emitted(no_spans(), run).len() == 0,
    decreases run.len(),
{
    if run.len() > 0 {
        let earlier = run.drop_last();
        assert(aimed_at(earlier, 0)) by {
            assert forall|i: int| 0 <= i < earlier.len() implies (#[trigger] earlier[i]).target
                == 0 || earlier[i].target == 0 by {
                assert(earlier[i] == run[i]);
            }
        }
        law_nothing_before_the_target_is_set(earlier);
        assert(run.last() == run[run.len() - 1]);
        assert(tables_after(no_spans(), run) =~= no_spans());
    }
}

/// Whether the tracepoint fires for the thread group `group`, where its probe
/// looks at that.
pub open spec fn fires_for(tp: Tracepoint, group: u32) -> bool {
    match tp {
        Tracepoint::SchedSwitch { tgid, .. } => tgid == group,
        Tracepoint::FutexEnter { tgid, .. } => tgid == group,
        Tracepoint::BlockRqIssue { tgid, .. } => tgid == group,
        _ => false,
    }
}

/// A target that is no thread group, such as the id of a thread that leads none,
/// traces nothing.
pub proof fn law_target_without_threads_traces_nothing(run: Seq<Firing>, tgid: u32)
    requires
        aimed_at(run, tgid),
        forall|i: int| 0 <= i < run.len() ==> !fires_for((#[trigger] run[i]).tp, tgid),
    ensures
        tables_after(no_spans(), run) == no_spans(),
        emitted(no_spans(), run).len() == 0,
    decreases run.len(),
{
    if run.len() > 0 {
        let earlier = run.drop_last();
        assert forall|i: int| 0 <= i < earlier.len() implies ((#[trigger] earlier[i]).target == 0
            || earlier[i].target == tgid) && !fires_for(earlier[i].tp, tgid) by {
            assert(earlier[i] == run[i]);
        }
        law_target_without_threads_traces_nothing(earlier, tgid);
        let last = run[run.len() - 1];
        assert(last.target == 0 || last.target == tgid);
        assert(!fires_for(last.tp, tgid));
        assert(tables_after(no_spans(), run) =~= no_spans());
    }
}

/// Every event is stamped at the moment its span completed, and its span does
/// not reach back beyond the start of the clock.
pub proof fn law_events_are_stamped_at_completion(
    tables: TablesView,
    target: u32,
    tp: Tracepoint,
)
    ensures
        fired(tables, target, tp).1 matches Some(ev) ==> ev.timestamp_ns == tp.time()
            && ev.duration_ns <= ev.timestamp_ns,
{
}

/// A thread that is taken off the CPU while still runnable begins no span.
pub proof fn law_runnable_threads_are_not_stalled(
    tables: TablesView,
    target: u32,
    evt: TraceEventRawSchedSwitch,
    tgid: u32,
    ts: u64,
)
    requires
        evt.prev_state == crate::vmlinux::TASK_RUNNING,
    ensures
        forall|tid: u32|
            fired(
                tables,
                target,
                Tracepoint::SchedSwitch { evt, tgid, ts },
            ).0.off_cpu.contains_key(tid) ==> #[trigger] tables.off_cpu.contains_key(tid),
{
}

/// The tables never hold more than they have room for.
pub open spec fn within_capacity(tables: TablesView) -> bool {
    &&& tables.off_cpu.dom().finite() && tables.off_cpu.len() <= THREAD_CAPACITY
    &&& tables.in_futex.dom().finite() && tables.in_futex.len() <= THREAD_CAPACITY
    &&& tables.in_flight.dom().finite() && tables.in_flight.len() <= REQUEST_CAPACITY
}

proof fn lemma_put_within<K, V>(table: Map<K, V>, capacity: nat, stash: Option<(K, V)>)
    requires
        table.dom().finite(),
        table.len() <= capacity,
    ensures
        put(table, capacity, stash).dom().finite(),
        put(table, capacity, stash).len() <= capacity,
{
    if let Some((key, value)) = stash {
        assert(table.insert(key, value).dom() =~= table.dom().insert(key));
    }
}

proof fn lemma_remove_within<K, V>(table: Map<K, V>, capacity: nat, key: K)
    requires
        table.dom().finite(),
        table.len() <= capacity,
    ensures
        table.remove(key).dom().finite(),
        table.remove(key).len() <= capacity,
{
    assert(table.remove(key).dom() =~= table.dom().remove(key));
}

/// Whatever fires, the tables stay within their capacity.
pub proof fn law_capacity_is_kept(tables: TablesView, target: u32, tp: Tracepoint)
    requires
        within_capacity(tables),
    ensures
        within_capacity(fired(tables, target, tp).0),
{
    let threads = THREAD_CAPACITY as nat;
    let requests = REQUEST_CAPACITY as nat;
    match tp {
        Tracepoint::SchedSwitch { evt, tgid, ts } => {
            let stash = probe::switch_stash(target, evt, tgid, ts);
            lemma_put_within(tables.off_cpu, threads, stash);
            lemma_remove_within(
                put(tables.off_cpu, threads, stash),
                threads,
                evt.next_pid as u32,
            );
        },
        Tracepoint::FutexEnter { evt, tgid, tid, comm, ts } => {
            lemma_put_within(
                tables.in_futex,
                threads,
                probe::futex_stash(target, evt, tgid, tid, comm, ts),
            );
        },
        Tracepoint::FutexExit { tid, ts } => {
            lemma_remove_within(tables.in_futex, threads, tid);
        },
        Tracepoint::BlockRqIssue { evt, tgid, tid, comm, ts } => {
            lemma_put_within(
                tables.in_flight,
                requests,
                probe::issue_stash(target, evt, tgid, tid, comm, ts),
            );
        },
        Tracepoint::BlockRqComplete { evt, ts } => {
            lemma_remove_within(
                tables.in_flight,
                requests,
                event::block_key(evt.dev, evt.sector) as u64,
            );
        },
    }
}

/// An off-CPU thread stays remembered as long as no switch concerns it.
proof fn lemma_off_cpu_kept(tables: TablesView, run: Seq<Firing>, tid: u32)
    requires
        forall|i: int| 0 <= i < run.len() ==> !(#[trigger] run[i]).tp.switches(tid),
    ensures
        entry(tables_after(tables, run).off_cpu, tid) == entry(tables.off_cpu, tid),
    decreases run.len(),
{
    if run.len() > 0 {
        let earlier = run.drop_last();
        assert forall|i: int| 0 <= i < earlier.len() implies !(#[trigger] earlier[i]).tp.switches(
            tid,
        ) by {
            assert(earlier[i] == run[i]);
        }
        lemma_off_cpu_kept(tables, earlier, tid);
        assert(!run[run.len() - 1].tp.switches(tid));
    }
}

/// A futex call stays remembered until the thread returns from it.
proof fn lemma_in_futex_kept(tables: TablesView, run: Seq<Firing>, tid: u32)
    requires
        forall|i: int| 0 <= i < run.len() ==> !(#[trigger] run[i]).tp.futex_call_of(tid),
    ensures
        entry(tables_after(tables, run).in_futex, tid) == entry(tables.in_futex, tid),
    decreases run.len(),
{
    if run.len() > 0 {
        let earlier = run.drop_last();
        assert forall|i: int|
            0 <= i < earlier.len() implies !(#[trigger] earlier[i]).tp.futex_call_of(tid) by {
            assert(earlier[i] == run[i]);
        }
        lemma_in_futex_kept(tables, earlier, tid);
        assert(!run[run.len() - 1].tp.futex_call_of(tid));
    }
}

/// A request stays remembered until one under its key is issued or completes.
proof fn lemma_in_flight_kept(tables: TablesView, run: Seq<Firing>, key: u64)
    requires
        forall|i: int| 0 <= i < run.len() ==> !(#[trigger] run[i]).tp.request_under(key),
    ensures
        entry(tables_after(tables, run).in_flight, key) == entry(tables.in_flight, key),
    decreases run.len(),
{
    if run.len() > 0 {
        let earlier = run.drop_last();
        assert forall|i: int|
            0 <= i < earlier.len() implies !(#[trigger] earlier[i]).tp.request_under(key) by {
            assert(earlier[i] == run[i]);
        }
        lemma_in_flight_kept(tables, earlier, key);
        let last = run[run.len() - 1];
        assert(!last.tp.request_under(key));
        match last.tp {
            Tracepoint::BlockRqIssue { evt, .. } => {
                event::law_block_key_round_trip(evt.dev, evt.sector);
            },
            Tracepoint::BlockRqComplete { evt, .. } => {
                event::law_block_key_round_trip(evt.dev, evt.sector);
            },
            _ => {},
        }
    }
}

/// A thread of the target that blocks and later runs again, with no switch of it
/// in between, is reported once it runs: for the time between the two switches,
/// under its own id and the name it blocked under.
pub proof fn law_off_cpu_span_is_reported(
    tables: TablesView,
    target: u32,
    out: TraceEventRawSchedSwitch,
    out_ts: u64,
    run: Seq<Firing>,
    back: TraceEventRawSchedSwitch,
    back_tgid: u32,
    back_ts: u64,
)
    requires
        target != 0,
        out.prev_state != crate::vmlinux::TASK_RUNNING,
        out.next_pid as u32 != out.prev_pid as u32,
        tables.off_cpu.contains_key(out.prev_pid as u32) || tables.off_cpu.len()
            < THREAD_CAPACITY,
        forall|i: int|
            0 <= i < run.len() ==> !(#[trigger] run[i]).tp.switches(out.prev_pid as u32),
        back.next_pid as u32 == out.prev_pid as u32,
        back.prev_pid as u32 != out.prev_pid as u32,
    ensures
        ({
            let left = fired(
                tables,
                target,
                Tracepoint::SchedSwitch { evt: out, tgid: target, ts: out_ts },
            ).0;
            let ret = fired(
                tables_after(left, run),
                target,
                Tracepoint::SchedSwitch { evt: back, tgid: back_tgid, ts: back_ts },
            );
            &&& ret.1 == Some(
                Event {
                    timestamp_ns: back_ts,
                    duration_ns: if out_ts <= back_ts {
                        (back_ts - out_ts) as u64
                    } else {
                        0
                    },
                    key: 0,
                    pid: target,
                    tid: out.prev_pid as u32,
                    event_type: 0,
                    _pad: event::zero_pad(),
                    comm: out.prev_comm,
                },
            )
            &&& !ret.0.off_cpu.contains_key(out.prev_pid as u32)
        }),
{
    let left = fired(
        tables,
        target,
        Tracepoint::SchedSwitch { evt: out, tgid: target, ts: out_ts },
    ).0;
    lemma_off_cpu_kept(left, run, out.prev_pid as u32);
}

/// A futex call of the target that is a wait or a wake is reported once it
/// returns: for the time it took, under the address it was called on.
pub proof fn law_futex_call_is_reported(
    tables: TablesView,
    target: u32,
    enter: TraceEventRawSysEnter,
    tid: u32,
    comm: [u8; 16],
    enter_ts: u64,
    run: Seq<Firing>,
    exit_target: u32,
    exit_ts: u64,
)
    requires
        target != 0,
        tables.in_futex.contains_key(tid) || tables.in_futex.len() < THREAD_CAPACITY,
        forall|i: int| 0 <= i < run.len() ==> !(#[trigger] run[i]).tp.futex_call_of(tid),
    ensures
        ({
            let entered = fired(
                tables,
                target,
                Tracepoint::FutexEnter { evt: enter, tgid: target, tid, comm, ts: enter_ts },
            ).0;
            let ret = fired(
                tables_after(entered, run),
                exit_target,
                Tracepoint::FutexExit { tid, ts: exit_ts },
            );
            &&& ret.1 == (match probe::futex_event_type(
                (enter.args@[1] % 0x1_0000_0000) as u32,
            ) {
                Some(event_type) => Some(
                    Event {
                        timestamp_ns: exit_ts,
                        duration_ns: if enter_ts <= exit_ts {
                            (exit_ts - enter_ts) as u64
                        } else {
                            0
                        },
                        key: enter.args@[0],
                        pid: target,
                        tid,
                        event_type,
                        _pad: event::zero_pad(),
                        comm,
                    },
                ),
                None => None,
            })
            &&& !ret.0.in_futex.contains_key(tid)
        }),
{
    let entered = fired(
        tables,
        target,
        Tracepoint::FutexEnter { evt: enter, tgid: target, tid, comm, ts: enter_ts },
    ).0;
    lemma_in_futex_kept(entered, run, tid);
}

/// A request that a thread of the target issues is reported once it completes,
/// under the thread that issued it, whatever runs when the completion fires.
pub proof fn law_request_is_reported_for_its_issuer(
    tables: TablesView,
    target: u32,
    issue: TraceEventRawBlockRq,
    tid: u32,
    comm: [u8; 16],
    issue_ts: u64,
    run: Seq<Firing>,
    complete: TraceEventRawBlockRqCompletion,
    complete_target: u32,
    complete_ts: u64,
)
    requires
        target != 0,
        tables.in_flight.contains_key(event::block_key(issue.dev, issue.sector) as u64)
            || tables.in_flight.len() < REQUEST_CAPACITY,
        complete.dev == issue.dev,
        complete.sector == issue.sector,
        forall|i: int|
            0 <= i < run.len() ==> !(#[trigger] run[i]).tp.request_under(
                event::block_key(issue.dev, issue.sector) as u64,
            ),
    ensures
        ({
            let key = event::block_key(issue.dev, issue.sector) as u64;
            let issued = fired(
                tables,
                target,
                Tracepoint::BlockRqIssue { evt: issue, tgid: target, tid, comm, ts: issue_ts },
            ).0;
            let ret = fired(
                tables_after(issued, run),
                complete_target,
                Tracepoint::BlockRqComplete { evt: complete, ts: complete_ts },
            );
            &&& ret.1 == Some(
                Event {
                    timestamp_ns: complete_ts,
                    duration_ns: if issue_ts <= complete_ts {
                        (complete_ts - issue_ts) as u64
                    } else {
                        0
                    },
                    key,
                    pid: target,
                    tid,
                    event_type: 3,
                    _pad: event::zero_pad(),
                    comm,
                },
            )
            &&& !ret.0.in_flight.contains_key(key)
        }),
{
    let issued = fired(
        tables,
        target,
        Tracepoint::BlockRqIssue { evt: issue, tgid: target, tid, comm, ts: issue_ts },
    ).0;
    lemma_in_flight_kept(issued, run, event::block_key(issue.dev, issue.sector) as u64);
}

/// What a switch does, in terms of its record alone. The outgoing thread is put
/// down if it blocked, is of the target and there is room; then the incoming thread
/// is taken out, and reported for the time since it was put down. Nothing else is
/// touched, and nothing happens without a target.
pub proof fn law_switch_puts_down_and_takes_out(
    tables: TablesView,
    target: u32,
    evt: TraceEventRawSchedSwitch,
    tgid: u32,
    ts: u64,
    other: u32,
)
    ensures
        ({
            let (next, emit) = fired(tables, target, Tracepoint::SchedSwitch { evt, tgid, ts });
            let out = evt.prev_pid as u32;
            let back = evt.next_pid as u32;
            let put_down = target != 0 && evt.prev_state != 0 && tgid == target && (
            tables.off_cpu.contains_key(out) || tables.off_cpu.len() < 10240);
            &&& target == 0 ==> next == tables && emit is None
            &&& next.in_futex == tables.in_futex
            &&& next.in_flight == tables.in_flight
            &&& target != 0 ==> !next.off_cpu.contains_key(back)
            &&& put_down && out != back ==> next.off_cpu.contains_key(out)
                && next.off_cpu[out].ts == ts && next.off_cpu[out].tgid == target
                && next.off_cpu[out].comm == evt.prev_comm
            &&& other != back && (other != out || !put_down) ==> (next.off_cpu.contains_key(other)
                <==> tables.off_cpu.contains_key(other)) && next.off_cpu[other]
                == tables.off_cpu[other]
            &&& put_down && out == back ==> (emit matches Some(ev) && ev.timestamp_ns == ts
                && ev.duration_ns == 0 && ev.key == 0 && ev.pid == target && ev.tid == back
                && ev.event_type == 0 && ev._pad@ == seq![0u8, 0u8, 0u8] && ev.comm
                == evt.prev_comm)
            &&& target != 0 && !(put_down && out == back) ==> (emit is Some
                <==> tables.off_cpu.contains_key(back))
            &&& target != 0 && !(put_down && out == back) ==> (emit matches Some(ev) ==> {
                let since = tables.off_cpu[back];
                &&& ev.timestamp_ns == ts
                &&& since.ts <= ts ==> ev.duration_ns == ts - since.ts
                &&& ts < since.ts ==> ev.duration_ns == 0
                &&& ev.key == 0
                &&& ev.pid == since.tgid
                &&& ev.tid == back
                &&& ev.event_type == 0
                &&& ev._pad@ == seq![0u8, 0u8, 0u8]
                &&& ev.comm == since.comm
            })
        }),
{
    assert(event::zero_pad()@ =~= seq![0u8, 0u8, 0u8]);
}

/// What entering `futex(2)` does, in terms of the record alone: the thread is put
/// down with the address, the low 32 bits of the operation, the name and the time,
/// if it is of the target and there is room. Nothing is reported, and nothing else
/// is touched.
pub proof fn law_futex_enter_puts_the_call_down(
    tables: TablesView,
    target: u32,
    evt: TraceEventRawSysEnter,
    tgid: u32,
    tid: u32,
    comm: [u8; 16],
    ts: u64,
    other: u32,
)
    ensures
        ({
            let (next, emit) = fired(
                tables,
                target,
                Tracepoint::FutexEnter { evt, tgid, tid, comm, ts },
            );
            let put_down = target != 0 && tgid == target && (tables.in_futex.contains_key(tid)
                || tables.in_futex.len() < 10240);
            &&& emit is None
            &&& next.off_cpu == tables.off_cpu
            &&& next.in_flight == tables.in_flight
            &&& !put_down ==> next.in_futex == tables.in_futex
            &&& put_down ==> next.in_futex.contains_key(tid) && next.in_futex[tid].ts == ts
                && next.in_futex[tid].uaddr == evt.args@[0] && next.in_futex[tid].op
                == evt.args@[1] % 0x1_0000_0000 && next.in_futex[tid].tgid == target
                && next.in_futex[tid].comm == comm
            &&& other != tid ==> (next.in_futex.contains_key(other)
                <==> tables.in_futex.contains_key(other)) && next.in_futex[other]
                == tables.in_futex[other]
        }),
{
}

/// What returning from `futex(2)` does, in terms of what was put down alone: it is
/// taken out, and a wait or a wake is reported for the time since, under its
/// address. Any other call is not reported, and nothing else is touched.
pub proof fn law_futex_exit_reports_waits_and_wakes(
    tables: TablesView,
    target: u32,
    tid: u32,
    ts: u64,
    other: u32,
)
    ensures
        ({
            let (next, emit) = fired(tables, target, Tracepoint::FutexExit { tid, ts });
            let call = tables.in_futex[tid];
            let command = call.op & 0xffff_fe7f;
            &&& next.off_cpu == tables.off_cpu
            &&& next.in_flight == tables.in_flight
            &&& !next.in_futex.contains_key(tid)
            &&& other != tid ==> (next.in_futex.contains_key(other)
                <==> tables.in_futex.contains_key(other)) && next.in_futex[other]
                == tables.in_futex[other]
            &&& emit is Some <==> tables.in_futex.contains_key(tid) && (command == 0 || command == 9
                || command == 1 || command == 10)
            &&& emit matches Some(ev) ==> {
                &&& ev.timestamp_ns == ts
                &&& call.ts <= ts ==> ev.duration_ns == ts - call.ts
                &&& ts < call.ts ==> ev.duration_ns == 0
                &&& ev.key == call.uaddr
                &&& ev.pid == call.tgid
                &&& ev.tid == tid
                &&& ev.event_type == (if command == 0 || command == 9 {
                    1u8
                } else {
                    2u8
                })
                &&& ev._pad@ == seq![0u8, 0u8, 0u8]
                &&& ev.comm == call.comm
            }
        }),
{
    assert(event::zero_pad()@ =~= seq![0u8, 0u8, 0u8]);
    if tables.in_futex.contains_key(tid) {
        probe::law_futex_calls_are_waits_or_wakes(tables.in_futex[tid].op);
    }
}

/// What issuing a request does, in terms of the record alone: the thread, its name
/// and the time are put down under the device and the low 32 bits of the sector, if
/// the thread is of the target and there is room. Nothing is reported, and nothing
/// else is touched.
pub proof fn law_issue_puts_the_request_down(
    tables: TablesView,
    target: u32,
    evt: TraceEventRawBlockRq,
    tgid: u32,
    tid: u32,
    comm: [u8; 16],
    ts: u64,
    key: u64,
    other: u64,
)
    requires
        key == evt.dev * 0x1_0000_0000 + evt.sector % 0x1_0000_0000,
    ensures
        ({
            let (next, emit) = fired(
                tables,
                target,
                Tracepoint::BlockRqIssue { evt, tgid, tid, comm, ts },
            );
            let put_down = target != 0 && tgid == target && (tables.in_flight.contains_key(key)
                || tables.in_flight.len() < 4096);
            &&& emit is None
            &&& next.off_cpu == tables.off_cpu
            &&& next.in_futex == tables.in_futex
            &&& !put_down ==> next.in_flight == tables.in_flight
            &&& put_down ==> next.in_flight.contains_key(key) && next.in_flight[key].ts == ts
                && next.in_flight[key].tgid == target && next.in_flight[key].tid == tid
                && next.in_flight[key].comm == comm
            &&& other != key ==> (next.in_flight.contains_key(other)
                <==> tables.in_flight.contains_key(other)) && next.in_flight[other]
                == tables.in_flight[other]
        }),
{
}

/// What completing a request does, in terms of what was put down alone: it is taken
/// out from under the device and the low 32 bits of the sector, and reported for the
/// time since and the thread that issued it. Nothing else is touched, and it makes
/// no difference what the target is.
pub proof fn law_completion_reports_the_issuer(
    tables: TablesView,
    target: u32,
    evt: TraceEventRawBlockRqCompletion,
    ts: u64,
    key: u64,
    other: u64,
)
    requires
        key == evt.dev * 0x1_0000_0000 + evt.sector % 0x1_0000_0000,
    ensures
        ({
            let (next, emit) = fired(tables, target, Tracepoint::BlockRqComplete { evt, ts });
            let request = tables.in_flight[key];
            &&& next.off_cpu == tables.off_cpu
            &&& next.in_futex == tables.in_futex
            &&& !next.in_flight.contains_key(key)
            &&& other != key ==> (next.in_flight.contains_key(other)
                <==> tables.in_flight.contains_key(other)) && next.in_flight[other]
                == tables.in_flight[other]
            &&& emit is Some <==> tables.in_flight.contains_key(key)
            &&& emit matches Some(ev) ==> {
                &&& ev.timestamp_ns == ts
                &&& request.ts <= ts ==> ev.duration_ns == ts - request.ts
                &&& ts < request.ts ==> ev.duration_ns == 0
                &&& ev.key == key
                &&& ev.pid == request.tgid
                &&& ev.tid == request.tid
                &&& ev.event_type == 3
                &&& ev._pad@ == seq![0u8, 0u8, 0u8]
                &&& ev.comm == request.comm
            }
        }),
{
    assert(event::zero_pad()@ =~= seq![0u8, 0u8, 0u8]);
}

/// Firings take effect one after the other, in order: each on the tables that those
/// before it left, and its event comes behind theirs.
pub proof fn law_firings_take_effect_in_order(tables: TablesView, run: Seq<Firing>, last: Firing)
    ensures
        tables_after(tables, Seq::empty()) == tables,
        tables_after(tables, run.push(last)) == fired(
            tables_after(tables, run),
            last.target,
            last.tp,
        ).0,
        emitted(tables, Seq::empty()).len() == 0,
        emitted(tables, run.push(last)) == emitted(tables, run) + (match fired(
            tables_after(tables, run),
            last.target,
            last.tp,
        ).1 {
            Some(ev) => seq![ev],
            None => Seq::empty(),
        }),
{
    assert(run.push(last).drop_last() =~= run);
    assert(emitted(tables, run.push(last)) =~= emitted(tables, run) + (match fired(
        tables_after(tables, run),
        last.target,
        last.tp,
    ).1 {
        Some(ev) => seq![ev],
        None => Seq::empty(),
    }));
}

} // verus!
