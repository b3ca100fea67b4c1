//! The `explain` report: the longest stalls of a trace, each with its causal
//! chain as lines of text.

use std::collections::HashMap;

use vstd::prelude::*;

use crate::chain;
use crate::chain::{trace_stall, Blocker, Hop, Stall, StallView};
use crate::duration;
use crate::duration::{format_duration, format_wall_time, LocalTime};
use crate::event::EVENT_SCHED_BLOCK;
use crate::matching;
use crate::matching::{CauseView, Typed};
use crate::rank;
use crate::text;
use crate::trace::{TraceEvent, TraceFile};

verus! {

broadcast use vstd::std_specs::hash::group_hash_axioms;

/// The lines as sequences of characters.
pub open spec fn texts(lines: Seq<String>) -> Seq<Seq<char>> {
    lines.map_values(|line: String| line@)
}

/// Names of block devices, as far as they have been looked up.
pub struct DevNames {
    cache: HashMap<u32, String>,
}

impl View for DevNames {
    type V = Map<u32, Seq<char>>;

    closed spec fn view(&self) -> Map<u32, Seq<char>> {
        self.cache@.map_values(|name: String| name@)
    }
}

/// `major:minor` of a raw kernel `dev_t`, whose low 20 bits are the minor number.
pub open spec fn dev_number_text(dev: u32) -> Seq<char> {
    text::decimal((dev / 0x10_0000) as nat) + ":"@ + text::decimal((dev % 0x10_0000) as nat)
}

/// What a device is called that has no entry in sysfs.
pub open spec fn fallback_name(dev: u32) -> Seq<char> {
    "dev"@ + dev_number_text(dev)
}

/// The name of `dev`: the one it is already known by, else the one that sysfs
/// links to, else one made of its numbers.
pub open spec fn resolved_name(
    names: Map<u32, Seq<char>>,
    dev: u32,
    link: Option<Seq<char>>,
) -> Seq<char> {
    if names.contains_key(dev) {
        names[dev]
    } else {
        match link {
            Some(name) => name,
            None => fallback_name(dev),
        }
    }
}

/// What stands behind the last slash of `path`.
pub open spec fn behind_last_slash(path: Seq<char>) -> Seq<char>
    decreases path.len(),
{
    if path.len() == 0 || path.last() == '/' {
        Seq::empty()
    } else {
        behind_last_slash(path.drop_last()).push(path.last())
    }
}

/// The last component of `path`, not counting slashes and `.` at its end; a path
/// that has no other component, or whose last one is `..`, has none.
pub open spec fn last_component(path: Seq<char>) -> Option<Seq<char>>
    decreases path.len(),
{
    if path.len() == 0 {
        None
    } else if path.last() == '/' || behind_last_slash(path) == seq!['.'] {
        last_component(path.drop_last())
    } else if behind_last_slash(path) == seq!['.', '.'] {
        None
    } else {
        Some(behind_last_slash(path))
    }
}

/// What stands behind the last slash before `end` begins at `start`.
proof fn lemma_behind_last_slash(path: Seq<char>, start: int, end: int)
    requires
        0 <= start <= end <= path.len(),
        start == 0 || path[start - 1] == '/',
        forall|i: int| start <= i < end ==> path[i] != '/',
    ensures
        behind_last_slash(path.take(end)) == path.subrange(start, end),
    decreases end - start,
{
    if start < end {
        lemma_behind_last_slash(path, start, end - 1);
        assert(path.take(end).drop_last() =~= path.take(end - 1));
        assert(path.subrange(start, end - 1).push(path[end - 1]) =~= path.subrange(start, end));
    } else {
        assert(path.subrange(start, end) =~= Seq::<char>::empty());
    }
}

/// The name that a symlink in sysfs gives a device: the last component of its
/// target.
pub fn link_name(target: &str) -> (name: Option<String>)
    ensures
        match name {
            Some(n) => last_component(target@) == Some(n@),
            None => last_component(target@) is None,
        },
{
    let ghost path = target@;
    let mut end: usize = target.unicode_len();
    assert(path.take(end as int) =~= path);
    while end > 0
        invariant
            path == target@,
            end <= path.len(),
            last_component(path.take(end as int)) == last_component(path),
        decreases end,
    {
        assert(path.take(end as int).drop_last() =~= path.take(end - 1));
        if target.get_char(end - 1) == '/' {
            end = end - 1;
        } else {
            let mut start: usize = end - 1;
            while start > 0 && target.get_char(start - 1) != '/'
                invariant
                    path == target@,
                    start < end <= path.len(),
                    forall|i: int| start <= i < end ==> path[i] != '/',
                decreases start,
            {
                start = start - 1;
            }
            proof {
                lemma_behind_last_slash(path, start as int, end as int);
            }
            let name = target.substring_char(start, end);
            if end - start == 1 && target.get_char(start) == '.' {
                assert(name@ =~= seq!['.']);
                end = end - 1;
            } else if end - start == 2 && target.get_char(start) == '.' && target.get_char(
                start + 1,
            ) == '.' {
                assert(name@ =~= seq!['.', '.']);
                return None;
            } else {
                assert(name@ != seq!['.']) by {
                    if name@ == seq!['.'] {
                        assert(name@[0] == path[start as int]);
                    }
                }
                assert(name@ != seq!['.', '.']) by {
                    if name@ == seq!['.', '.'] {
                        assert(name@[0] == path[start as int] && name@[1] == path[start + 1]);
                    }
                }
                return Some(name.to_owned());
            }
        }
    }
    None
}

/// Appends `major:minor` of `dev`.
fn push_dev_number(out: &mut String, dev: u32)
    ensures
        final(out)@ == old(out)@ + dev_number_text(dev),
{
    let major = dev >> 20;
    let minor = dev & 0xFFFFF;
    assert(dev >> 20 == dev / 0x10_0000) by (bit_vector);
    assert(dev & 0xFFFFF == dev % 0x10_0000) by (bit_vector);
    text::push_decimal(out, major as u64);
    out.append(":");
    text::push_decimal(out, minor as u64);
    assert(out@ =~= old(out)@ + dev_number_text(dev));
}

impl DevNames {
    pub fn new() -> (names: Self)
        ensures
            names@ == Map::<u32, Seq<char>>::empty(),
    {
        let names = DevNames { cache: HashMap::new() };
        assert(names@ =~= Map::<u32, Seq<char>>::empty());
        names
    }

    /// The symlink under which sysfs knows the device.
    pub fn link_path(dev: u32) -> (path: String)
        ensures
            path@ == "/sys/dev/block/"@ + dev_number_text(dev),
    {
        let mut path = String::new();
        path.append("/sys/dev/block/");
        push_dev_number(&mut path, dev);
        assert(path@ =~= "/sys/dev/block/"@ + dev_number_text(dev));
        path
    }

    /// Whether the name of `dev` is known already.
    pub fn knows(&self, dev: u32) -> (known: bool)
        ensures
            known == self@.contains_key(dev),
    {
        self.cache.contains_key(&dev)
    }

    /// The name of `dev`, which is remembered. `link` is the [`link_name`] of the
    /// symlink at [`DevNames::link_path`], if it could be read and has one; it
    /// counts only for a device that is not known yet.
    pub fn name(&mut self, dev: u32, link: Option<String>) -> (name: String)
        ensures
            name@ == resolved_name(
                old(self)@,
                dev,
                match link {
                    Some(l) => Some(l@),
                    None => None,
                },
            ),
            final(self)@ == old(self)@.insert(dev, name@),
    {
        if let Some(n) = self.cache.get(&dev) {
            let name = n.clone();
            assert(self@ =~= old(self)@.insert(dev, name@));
            return name;
        }
        let name = match link {
            Some(l) => l,
            None => self.known_name(dev),
        };
        self.cache.insert(dev, name.clone());
        assert(self@ =~= old(self)@.insert(dev, name@));
        name
    }

    /// The name of `dev` without looking it up.
    pub fn known_name(&self, dev: u32) -> (name: String)
        ensures
            name@ == resolved_name(self@, dev, None),
    {
        if let Some(n) = self.cache.get(&dev) {
            return n.clone();
        }
        let mut name = String::new();
        name.append("dev");
        push_dev_number(&mut name, dev);
        assert(name@ =~= fallback_name(dev));
        name
    }
}

/// Once a device has been named, it keeps that name, whatever a later look at
/// sysfs would give; and naming it changes the name of no other device.
pub proof fn law_names_stick(
    names: Map<u32, Seq<char>>,
    dev: u32,
    link: Option<Seq<char>>,
    other: u32,
    later: Option<Seq<char>>,
)
    ensures
        ({
            let after = names.insert(dev, resolved_name(names, dev, link));
            &&& resolved_name(after, dev, later) == resolved_name(names, dev, link)
            &&& other != dev ==> resolved_name(after, other, later) == resolved_name(
                names,
                other,
                later,
            )
        }),
{
}

/// What the thread of a stall was blocked on, as the end of its first line.
pub open spec fn blocker_text(blocker: Blocker, names: Map<u32, Seq<char>>) -> Seq<char> {
    match blocker {
        Blocker::Futex { address } => " on futex 0x"@ + text::hexadecimal(address as nat),
        Blocker::BlockIo { dev, sector } => " on block I/O (dev "@ + resolved_name(
            names,
            dev,
            None,
        ) + ", sector "@ + text::decimal(sector as nat) + ")"@,
        Blocker::Unknown => " (no correlated cause found)"@,
    }
}

/// The first line of a stall's account.
pub open spec fn headline_text(
    stall: StallView,
    local: LocalTime,
    names: Map<u32, Seq<char>>,
) -> Seq<char> {
    duration::wall_time_text(local, stall.wall_ns) + " \u{2014} tid "@ + text::decimal(
        stall.tid as nat,
    ) + " blocked "@ + duration::duration_text(stall.duration_ns) + blocker_text(
        stall.blocker,
        names,
    )
}

/// The line for one step back.
pub open spec fn hop_text(hop: Hop, names: Map<u32, Seq<char>>) -> Seq<char> {
    match hop {
        Hop::WokenBy { tid } => " \u{2190} woken by tid "@ + text::decimal(tid as nat),
        Hop::OnFutex { tid, duration_ns, address } => " \u{2190} tid "@ + text::decimal(
            tid as nat,
        ) + " blocked "@ + duration::duration_text(duration_ns) + blocker_text(
            Blocker::Futex { address },
            names,
        ),
        Hop::OnBlockIo { tid, duration_ns, dev, sector } => " \u{2190} tid "@ + text::decimal(
            tid as nat,
        ) + " blocked "@ + duration::duration_text(duration_ns) + blocker_text(
            Blocker::BlockIo { dev, sector },
            names,
        ),
    }
}

/// The lines of a stall's account: the headline, then one per step back.
pub open spec fn stall_lines(
    stall: StallView,
    local: LocalTime,
    names: Map<u32, Seq<char>>,
) -> Seq<Seq<char>> {
    seq![headline_text(stall, local, names)] + stall.hops.map_values(
        |hop: Hop| hop_text(hop, names),
    )
}

/// Appends what a thread was blocked on.
fn push_blocker(out: &mut String, blocker: Blocker, dev_names: &DevNames)
    ensures
        final(out)@ == old(out)@ + blocker_text(blocker, dev_names@),
{
    match blocker {
        Blocker::Futex { address } => {
            out.append(" on futex 0x");
            text::push_hexadecimal(out, address);
        },
        Blocker::BlockIo { dev, sector } => {
            out.append(" on block I/O (dev ");
            let name = dev_names.known_name(dev);
            out.append(name.as_str());
            out.append(", sector ");
            text::push_decimal(out, sector as u64);
            out.append(")");
        },
        Blocker::Unknown => {
            out.append(" (no correlated cause found)");
        },
    }
    assert(out@ =~= old(out)@ + blocker_text(blocker, dev_names@));
}

/// Appends `<tid> blocked <span>` and what the thread was blocked on.
fn push_blocked(
    out: &mut String,
    tid: u32,
    duration_ns: u64,
    blocker: Blocker,
    dev_names: &DevNames,
)
    ensures
        final(out)@ == old(out)@ + (text::decimal(tid as nat) + " blocked "@
            + duration::duration_text(duration_ns) + blocker_text(blocker, dev_names@)),
{
    text::push_decimal(out, tid as u64);
    out.append(" blocked ");
    let span = format_duration(duration_ns);
    out.append(span.as_str());
    push_blocker(out, blocker, dev_names);
    assert(out@ =~= old(out)@ + (text::decimal(tid as nat) + " blocked "@
        + duration::duration_text(duration_ns) + blocker_text(blocker, dev_names@)));
}

/// The line for one step back.
fn format_hop(hop: Hop, dev_names: &DevNames) -> (line: String)
    ensures
        line@ == hop_text(hop, dev_names@),
{
    let mut line = String::new();
    match hop {
        Hop::WokenBy { tid } => {
            line.append(" \u{2190} woken by tid ");
            text::push_decimal(&mut line, tid as u64);
        },
        Hop::OnFutex { tid, duration_ns, address } => {
            line.append(" \u{2190} tid ");
            push_blocked(&mut line, tid, duration_ns, Blocker::Futex { address }, dev_names);
        },
        Hop::OnBlockIo { tid, duration_ns, dev, sector } => {
            line.append(" \u{2190} tid ");
            push_blocked(&mut line, tid, duration_ns, Blocker::BlockIo { dev, sector }, dev_names);
        },
    }
    assert(line@ =~= hop_text(hop, dev_names@));
    line
}

/// One fully-formatted causal chain, headline first.
pub struct Chain {
    pub lines: Vec<String>,
}

impl View for Chain {
    type V = Seq<Seq<char>>;

    open spec fn view(&self) -> Seq<Seq<char>> {
        texts(self.lines@)
    }
}

/// The account of one stall as text. `local` is the time of day at which the
/// stall began.
pub fn explain_one_stall(stall: &Stall, local: LocalTime, dev_names: &DevNames) -> (chain: Chain)
    ensures
        chain@ == stall_lines(stall@, local, dev_names@),
{
    let mut headline = format_wall_time(local, stall.wall_ns);
    headline.append(" \u{2014} tid ");
    push_blocked(&mut headline, stall.tid, stall.duration_ns, stall.blocker, dev_names);
    assert(headline@ =~= headline_text(stall@, local, dev_names@));
    let mut lines: Vec<String> = Vec::new();
    lines.push(headline);
    let mut i: usize = 0;
    while i < stall.hops.len()
        invariant
            i <= stall.hops.len(),
            lines.len() == i + 1,
            lines@[0]@ == headline_text(stall@, local, dev_names@),
            forall|k: int|
                0 <= k < i ==> (#[trigger] lines@[k + 1])@ == hop_text(
                    stall.hops@[k],
                    dev_names@,
                ),
        decreases stall.hops.len() - i,
    {
        lines.push(format_hop(stall.hops[i], dev_names));
        i = i + 1;
    }
    let chain = Chain { lines };
    proof {
        let expected = stall_lines(stall@, local, dev_names@);
        assert(chain@.len() == expected.len());
        assert forall|k: int| 0 <= k < expected.len() implies chain@[k] == expected[k] by {
            if k > 0 {
                assert(lines@[(k - 1) + 1]@ == hop_text(stall.hops@[k - 1], dev_names@));
            }
        }
        assert(chain@ =~= expected);
    }
    chain
}

/// A device that a step names is in the list of devices of the steps.
proof fn lemma_hop_device_is_listed(hops: Seq<Hop>, k: int)
    requires
        0 <= k < hops.len(),
    ensures
        hops[k] matches Hop::OnBlockIo { dev, .. } ==> chain::hop_devices(hops).contains(dev),
    decreases hops.len(),
{
    let rest = hops.drop_last();
    if let Hop::OnBlockIo { dev: last, .. } = hops.last() {
        let listed = chain::hop_devices(hops);
        assert(listed =~= chain::hop_devices(rest).push(last));
        assert(listed.last() == last);
    }
    if k < rest.len() {
        lemma_hop_device_is_listed(rest, k);
        if let Hop::OnBlockIo { dev, .. } = hops[k] {
            let before = chain::hop_devices(rest);
            let i = choose|i: int| 0 <= i < before.len() && before[i] == dev;
            assert(chain::hop_devices(hops)[i] == dev);
        }
    }
}

/// The account of a stall depends on the names of the devices that
/// [`Stall::devices`] lists and of no others: it is enough to look those up.
pub proof fn law_listed_devices_suffice(
    stall: StallView,
    local: LocalTime,
    names: Map<u32, Seq<char>>,
    others: Map<u32, Seq<char>>,
)
    requires
        forall|dev: u32| #[trigger]
            chain::stall_devices(stall).contains(dev) ==> resolved_name(names, dev, None)
                == resolved_name(others, dev, None),
    ensures
        stall_lines(stall, local, names) == stall_lines(stall, local, others),
{
    let devices = chain::stall_devices(stall);
    let later = chain::hop_devices(stall.hops);
    if let Blocker::BlockIo { dev, .. } = stall.blocker {
        assert(devices[0] == dev);
        assert(devices.contains(dev));
    }
    assert forall|k: int| 0 <= k < stall.hops.len() implies hop_text(
        #[trigger] stall.hops[k],
        names,
    ) == hop_text(stall.hops[k], others) by {
        lemma_hop_device_is_listed(stall.hops, k);
        if let Hop::OnBlockIo { dev, .. } = stall.hops[k] {
            let i = choose|i: int| 0 <= i < later.len() && later[i] == dev;
            assert(devices[devices.len() - later.len() + i] == dev);
            assert(devices.contains(dev));
        }
    }
    assert(stall_lines(stall, local, names) =~= stall_lines(stall, local, others));
}

/// The chain that this program is for. A thread resumes from a futex wait, the
/// wake that ended the wait came from a thread that had just been in block I/O:
/// the account says on which futex the first thread was blocked, who woke it,
/// and that the waker, the very thread that issued the I/O, was blocked on it.
pub proof fn law_late_wake_is_traced_to_block_io(
    trace: TraceFile,
    block: TraceEvent,
    wait: TraceEvent,
    wake: TraceEvent,
    io: TraceEvent,
    local: LocalTime,
    names: Map<u32, Seq<char>>,
)
    requires
        matching::resume_cause(trace.events@, block.tid, block.timestamp_ns) == CauseView::Futex(
            wait,
        ),
        chain::wake_of(trace.events@, wait) == Some(wake),
        chain::cause_of_wake(trace.events@, wake) == CauseView::BlockIo(io),
    ensures
        io.tid == wake.tid,
        wait.tid == block.tid,
        ({
            let stall = chain::stall_of(
                trace.realtime_anchor_ns,
                trace.monotonic_anchor_ns,
                trace.events@,
                block,
            );
            let lines = stall_lines(stall, local, names);
            &&& lines.len() == 3
            &&& lines[0] == duration::wall_time_text(local, stall.wall_ns) + " \u{2014} tid "@
                + text::decimal(block.tid as nat) + " blocked "@ + duration::duration_text(
                block.duration_ns,
            ) + (" on futex 0x"@ + text::hexadecimal(wait.key as nat))
            &&& lines[1] == " \u{2190} woken by tid "@ + text::decimal(wake.tid as nat)
            &&& lines[2] == " \u{2190} tid "@ + text::decimal(io.tid as nat) + " blocked "@
                + duration::duration_text(io.duration_ns) + blocker_text(
                Blocker::BlockIo { dev: chain::key_dev(io.key), sector: chain::key_sector(io.key) },
                names,
            )
        }),
{
    chain::law_steps_go_back_in_time(trace.events@, wait);
    matching::law_resume_cause_is_closest(trace.events@, block.tid, block.timestamp_ns);
}

/// How many stalls of a trace are reported when `slowest` are asked for.
pub open spec fn stall_count(trace: TraceFile, slowest: nat) -> nat {
    let blocked = rank::stall_order(trace.events@).len();
    if slowest < blocked {
        slowest
    } else {
        blocked
    }
}

/// The account of the stall of rank `k`, the slowest having rank 0.
pub open spec fn ranked_stall(trace: TraceFile, k: int) -> StallView {
    chain::stall_of(
        trace.realtime_anchor_ns,
        trace.monotonic_anchor_ns,
        trace.events@,
        trace.events@[rank::stall_order(trace.events@)[k]],
    )
}

/// The report goes from the longest stall to the shortest, and leaves out no
/// stall that is longer than one it has.
pub proof fn law_report_is_of_the_longest(trace: TraceFile, slowest: nat, p: int)
    requires
        0 <= p < stall_count(trace, slowest),
    ensures
        forall|q: int|
            p <= q < stall_count(trace, slowest) ==> (#[trigger] ranked_stall(
                trace,
                q,
            )).duration_ns <= ranked_stall(trace, p).duration_ns,
        forall|i: int|
            0 <= i < trace.events@.len() && (#[trigger] trace.events@[i]).event_type
                == EVENT_SCHED_BLOCK && !rank::stall_order(trace.events@).take(
                stall_count(trace, slowest) as int,
            ).contains(i) ==> trace.events@[i].duration_ns <= ranked_stall(trace, p).duration_ns,
{
    let order = rank::stall_order(trace.events@);
    rank::law_longest_first(trace.events@);
    assert forall|q: int| p <= q < stall_count(trace, slowest) implies (#[trigger] ranked_stall(
        trace,
        q,
    )).duration_ns <= ranked_stall(trace, p).duration_ns by {
        if p < q {
            assert(trace.events@[order[p]].duration_ns >= trace.events@[order[q]].duration_ns);
        }
    }
    assert forall|i: int|
        0 <= i < trace.events@.len() && (#[trigger] trace.events@[i]).event_type
            == EVENT_SCHED_BLOCK && !order.take(stall_count(trace, slowest) as int).contains(
            i,
        ) implies trace.events@[i].duration_ns <= ranked_stall(trace, p).duration_ns by {
        rank::law_left_out_are_no_longer(trace.events@, stall_count(trace, slowest) as int, i);
        assert(trace.events@[order[p]].duration_ns >= trace.events@[i].duration_ns);
    }
}

/// There are no more blocked intervals than events.
proof fn lemma_blocked_are_among_the_events(events: Seq<TraceEvent>)
    ensures
        rank::stall_order(events).len() <= events.len(),
{
    rank::law_ranking_is_of_all_blocked_intervals(events);
    let order = rank::stall_order(events);
    vstd::set_lib::lemma_int_range(0, events.len() as int);
    order.unique_seq_to_set();
    assert(order.to_set().subset_of(vstd::set_lib::set_int_range(0, events.len() as int)));
    vstd::set_lib::lemma_len_subset(
        order.to_set(),
        vstd::set_lib::set_int_range(0, events.len() as int),
    );
}

/// As many stalls are reported as were asked for, or as there are blocked intervals
/// in the trace, whichever is less.
pub proof fn law_as_many_stalls_as_asked_for_or_as_there_are(trace: TraceFile, slowest: nat)
    ensures
        ({
            let blocked = Set::new(
                |i: int| 0 <= i < trace.events@.len() && trace.events@[i].event_type == 0,
            ).len();
            &&& stall_count(trace, slowest) <= slowest
            &&& stall_count(trace, slowest) <= blocked
            &&& stall_count(trace, slowest) == slowest || stall_count(trace, slowest) == blocked
        }),
{
    rank::law_ranking_is_of_all_blocked_intervals(trace.events@);
}

/// Asking for more stalls changes nothing about those that come first.
pub proof fn law_asking_for_more_only_adds(trace: TraceFile, fewer: nat, more: nat)
    requires
        fewer <= more,
    ensures
        stall_count(trace, fewer) <= stall_count(trace, more),
        stall_count(trace, fewer) < fewer ==> stall_count(trace, more) == stall_count(
            trace,
            fewer,
        ),
{
}

/// The stall of rank `k` is the account of one blocked interval of the trace, and of
/// another one for every other rank: exactly `k` blocked intervals are longer, or as
/// long and recorded earlier.
pub proof fn law_rank_counts_the_slower_intervals(trace: TraceFile, k: int)
    requires
        0 <= k < Set::new(
            |i: int| 0 <= i < trace.events@.len() && trace.events@[i].event_type == 0,
        ).len(),
    ensures
        exists|i: int|
            0 <= i < trace.events@.len() && (#[trigger] trace.events@[i]).event_type == 0
                && ranked_stall(trace, k) == chain::stall_of(
                trace.realtime_anchor_ns,
                trace.monotonic_anchor_ns,
                trace.events@,
                trace.events@[i],
            ) && Set::new(
                |j: int|
                    0 <= j < trace.events@.len() && trace.events@[j].event_type == 0 && (
                    trace.events@[j].duration_ns > trace.events@[i].duration_ns || (
                    trace.events@[j].duration_ns == trace.events@[i].duration_ns && j < i)),
            ).len() == k,
{
    let events = trace.events@;
    rank::law_ranking_is_of_all_blocked_intervals(events);
    let order = rank::stall_order(events);
    let i = order[k];
    assert(events[i].event_type == 0);
    let ahead = order.take(k);
    assert(ahead.no_duplicates());
    ahead.unique_seq_to_set();
    let slower = Set::new(
        |j: int|
            0 <= j < events.len() && events[j].event_type == 0 && (events[j].duration_ns
                > events[i].duration_ns || (events[j].duration_ns == events[i].duration_ns && j
                < i)),
    );
    assert forall|j: int| ahead.to_set().contains(j) <==> slower.contains(j) by {
        if ahead.contains(j) {
            let p = choose|p: int| 0 <= p < ahead.len() && ahead[p] == j;
            assert(order[p] == j);
            assert(events[order[p]].event_type == 0);
        }
        if slower.contains(j) {
            assert(order.contains(j));
            let p = choose|p: int| 0 <= p < order.len() && order[p] == j;
            if p >= k {
                assert(order[k] == i && order[p] == j);
            } else {
                assert(ahead[p] == j);
            }
        }
    }
    assert(ahead.to_set() =~= slower);
}

/// The `slowest` longest blocked intervals, each traced back to its cause.
pub fn slowest_stalls(trace: &TraceFile, slowest: usize) -> (stalls: Vec<Stall>)
    ensures
        stalls@.len() == stall_count(*trace, slowest as nat),
        stalls@.len() <= slowest,
        stalls@.len() <= trace.events@.len(),
        forall|k: int|
            0 <= k < stalls@.len() ==> (#[trigger] stalls@[k])@ == ranked_stall(*trace, k),
        forall|p: int, q: int|
            0 <= p < q < stalls@.len() ==> (#[trigger] stalls@[p]).duration_ns >= (
            #[trigger] stalls@[q]).duration_ns,
        stalls@.len() < slowest ==> forall|i: int|
            0 <= i < trace.events@.len() && (#[trigger] trace.events@[i]).event_type == 0
                ==> exists|k: int|
                0 <= k < stalls@.len() && (#[trigger] stalls@[k]).tid == trace.events@[i].tid
                    && stalls@[k].duration_ns == trace.events@[i].duration_ns,
        forall|k: int|
            0 <= k < stalls@.len() ==> exists|i: int|
                0 <= i < trace.events@.len() && (#[trigger] trace.events@[i]).event_type == 0
                    && trace.events@[i].tid == (#[trigger] stalls@[k]).tid
                    && trace.events@[i].duration_ns == stalls@[k].duration_ns,
{
    let typed = Typed::partition(&trace.events);
    let order = rank::rank_stalls(&trace.events, &typed.block);
    let count = if slowest < order.len() {
        slowest
    } else {
        order.len()
    };
    let mut stalls: Vec<Stall> = Vec::new();
    let mut k: usize = 0;
    while k < count
        invariant
            k <= count <= order.len(),
            typed.wf(),
            typed.events == &trace.events,
            rank::as_ints(order@) == rank::stall_order(trace.events@),
            rank::is_stall_order(trace.events@, rank::as_ints(order@)),
            stalls.len() == k,
            forall|j: int|
                0 <= j < k ==> (#[trigger] stalls@[j])@ == ranked_stall(*trace, j),
        decreases count - k,
    {
        proof {
            let ints = rank::as_ints(order@);
            assert(ints[k as int] == order@[k as int]);
            assert(ints.contains(ints[k as int]));
        }
        let block = &trace.events[order[k]];
        stalls.push(trace_stall(block, trace, &typed));
        k = k + 1;
    }
    proof {
        let events = trace.events@;
        let ranking = rank::stall_order(events);
        rank::law_ranking_is_of_all_blocked_intervals(events);
        lemma_blocked_are_among_the_events(events);
        assert forall|k: int| 0 <= k < stalls@.len() implies (#[trigger] stalls@[k]).tid
            == events[ranking[k]].tid && stalls@[k].duration_ns == events[ranking[k]].duration_ns by {
            assert(stalls@[k]@ == ranked_stall(*trace, k));
        }
        assert forall|p: int, q: int| 0 <= p < q < stalls@.len() implies (
        #[trigger] stalls@[p]).duration_ns >= (#[trigger] stalls@[q]).duration_ns by {
            assert(events[ranking[p]].duration_ns >= events[ranking[q]].duration_ns);
        }
        if stalls@.len() < slowest {
            assert forall|i: int|
                0 <= i < events.len() && (#[trigger] events[i]).event_type == 0 implies exists|
                k: int,
            |
                0 <= k < stalls@.len() && (#[trigger] stalls@[k]).tid == events[i].tid
                    && stalls@[k].duration_ns == events[i].duration_ns by {
                assert(ranking.contains(i));
                let k = choose|k: int| 0 <= k < ranking.len() && ranking[k] == i;
                assert(stalls@[k].tid == events[i].tid);
            }
        }
        assert forall|k: int| 0 <= k < stalls@.len() implies exists|i: int|
            0 <= i < events.len() && (#[trigger] events[i]).event_type == 0 && events[i].tid == (
            #[trigger] stalls@[k]).tid && events[i].duration_ns == stalls@[k].duration_ns by {
            assert(events[ranking[k]].event_type == 0);
        }
    }
    stalls
}

/// Find the `slowest` longest blocked intervals and explain each one's causal
/// chain. `local_times` holds the times of day at which the intervals began, as
/// [`slowest_stalls`] gives them; a device that is not in `dev_names` is called
/// by its numbers.
pub fn explain(
    trace: &TraceFile,
    slowest: usize,
    local_times: &Vec<LocalTime>,
    dev_names: &DevNames,
) -> (chains: Vec<Chain>)
    requires
        local_times@.len() == stall_count(*trace, slowest as nat),
    ensures
        chains@.len() == stall_count(*trace, slowest as nat),
        forall|k: int|
            0 <= k < chains@.len() ==> (#[trigger] chains@[k])@ == stall_lines(
                ranked_stall(*trace, k),
                local_times@[k],
                dev_names@,
            ),
{
    let stalls = slowest_stalls(trace, slowest);
    let mut chains: Vec<Chain> = Vec::new();
    let mut k: usize = 0;
    while k < stalls.len()
        invariant
            k <= stalls.len(),
            stalls.len() == local_times.len(),
            chains.len() == k,
            forall|j: int|
                0 <= j < stalls@.len() ==> (#[trigger] stalls@[j])@ == ranked_stall(*trace, j),
            forall|j: int|
                0 <= j < k ==> (#[trigger] chains@[j])@ == stall_lines(
                    ranked_stall(*trace, j),
                    local_times@[j],
                    dev_names@,
                ),
        decreases stalls.len() - k,
    {
        chains.push(explain_one_stall(&stalls[k], local_times[k], dev_names));
        k = k + 1;
    }
    chains
}

/// The lines of the report on `chains`, with an empty line between two chains.
pub open spec fn report_lines(chains: Seq<Seq<Seq<char>>>) -> Seq<Seq<char>>
    decreases chains.len(),
{
    if chains.len() == 0 {
        Seq::empty()
    } else if chains.len() == 1 {
        chains[0]
    } else {
        report_lines(chains.drop_last()) + seq![Seq::<char>::empty()] + chains.last()
    }
}

/// The text of each chain in `chains`.
pub open spec fn chain_texts(chains: Seq<Chain>) -> Seq<Seq<Seq<char>>> {
    chains.map_values(|chain: Chain| chain@)
}

/// The lines that report `chains`, or that there is nothing to report.
pub fn chain_report(chains: &Vec<Chain>) -> (lines: Vec<String>)
    ensures
        chains@.len() == 0 ==> texts(lines@) == seq![
            "whyslow: no blocked intervals recorded (process may not have stalled, or trace is empty)"@,
        ],
        chains@.len() > 0 ==> texts(lines@) == report_lines(chain_texts(chains@)),
{
    let mut lines: Vec<String> = Vec::new();
    if chains.len() == 0 {
        lines.push(
            "whyslow: no blocked intervals recorded (process may not have stalled, or trace is empty)".to_owned(),
        );
        assert(texts(lines@) =~= seq![
            "whyslow: no blocked intervals recorded (process may not have stalled, or trace is empty)"@,
        ]);
        return lines;
    }
    let ghost all = chain_texts(chains@);
    assert(texts(lines@) =~= report_lines(all.take(0)));
    let mut i: usize = 0;
    while i < chains.len()
        invariant
            i <= chains.len(),
            all == chain_texts(chains@),
            texts(lines@) == report_lines(all.take(i as int)),
        decreases chains.len() - i,
    {
        let ghost before = texts(lines@);
        if i > 0 {
            lines.push(String::new());
        }
        let ghost gap = texts(lines@);
        assert(i > 0 ==> gap =~= before + seq![Seq::<char>::empty()]);
        let chain = &chains[i];
        let mut j: usize = 0;
        assert(texts(lines@) =~= gap + chain@.take(0));
        while j < chain.lines.len()
            invariant
                j <= chain.lines.len(),
                texts(lines@) == gap + chain@.take(j as int),
            decreases chain.lines.len() - j,
        {
            let ghost so_far = texts(lines@);
            let line = chain.lines[j].clone();
            assert(line@ == chain@[j as int]);
            lines.push(line);
            assert(texts(lines@) =~= so_far.push(line@));
            assert(chain@.take(j as int).push(chain@[j as int]) =~= chain@.take(j + 1));
            assert(texts(lines@) =~= gap + chain@.take(j + 1));
            j = j + 1;
        }
        proof {
            assert(chain@.take(j as int) =~= chain@);
            let next = all.take(i + 1);
            assert(next.drop_last() =~= all.take(i as int));
            assert(next.last() == chain@);
            assert(texts(lines@) =~= report_lines(next));
        }
        i = i + 1;
    }
    assert(all.take(i as int) =~= all);
    lines
}

/// A device goes by the name it is known by; else by the one that its link gives; else
/// by its major number, which is what stands above the low twenty bits, and its minor
/// number, which they are.
pub proof fn law_devices_go_by_name_or_number(
    names: Map<u32, Seq<char>>,
    dev: u32,
    link: Seq<char>,
    major: u32,
    minor: u32,
)
    requires
        minor < 0x10_0000,
        dev == major * 0x10_0000 + minor,
    ensures
        names.contains_key(dev) ==> resolved_name(names, dev, None) == names[dev]
            && resolved_name(names, dev, Some(link)) == names[dev],
        !names.contains_key(dev) ==> resolved_name(names, dev, Some(link)) == link,
        !names.contains_key(dev) ==> resolved_name(names, dev, None) == "dev"@ + text::decimal(
            major as nat,
        ) + ":"@ + text::decimal(minor as nat),
{
    assert(fallback_name(dev) =~= "dev"@ + text::decimal(major as nat) + ":"@ + text::decimal(
        minor as nat,
    ));
}

/// An account has a line for the stall and one for each step.
pub proof fn law_every_step_has_its_line(
    stall: StallView,
    local: LocalTime,
    names: Map<u32, Seq<char>>,
    k: int,
)
    requires
        0 <= k < stall.hops.len(),
    ensures
        ({
            let lines = stall_lines(stall, local, names);
            &&& lines.len() == stall.hops.len() + 1
            &&& match stall.hops[k] {
                Hop::WokenBy { tid } => lines[k + 1] == " \u{2190} woken by tid "@ + text::decimal(
                    tid as nat,
                ),
                Hop::OnFutex { tid, duration_ns, address } => lines[k + 1] == " \u{2190} tid "@
                    + text::decimal(tid as nat) + " blocked "@ + duration::duration_text(
                    duration_ns,
                ) + " on futex 0x"@ + text::hexadecimal(address as nat),
                Hop::OnBlockIo { tid, duration_ns, dev, sector } => lines[k + 1]
                    == " \u{2190} tid "@ + text::decimal(tid as nat) + " blocked "@
                    + duration::duration_text(duration_ns) + " on block I/O (dev "@ + resolved_name(
                    names,
                    dev,
                    None,
                ) + ", sector "@ + text::decimal(sector as nat) + ")"@,
            }
        }),
{
    let line = stall_lines(stall, local, names)[k + 1];
    match stall.hops[k] {
        Hop::WokenBy { tid } => {},
        Hop::OnFutex { tid, duration_ns, address } => {
            assert(line =~= " \u{2190} tid "@ + text::decimal(tid as nat) + " blocked "@
                + duration::duration_text(duration_ns) + " on futex 0x"@ + text::hexadecimal(
                address as nat,
            ));
        },
        Hop::OnBlockIo { tid, duration_ns, dev, sector } => {
            assert(line =~= " \u{2190} tid "@ + text::decimal(tid as nat) + " blocked "@
                + duration::duration_text(duration_ns) + " on block I/O (dev "@ + resolved_name(
                names,
                dev,
                None,
            ) + ", sector "@ + text::decimal(sector as nat) + ")"@);
        },
    }
}

/// The headline of an account says when the stall began, which thread it was, how long
/// it lasted, and what on.
pub proof fn law_headline_tells_the_stall(
    stall: StallView,
    local: LocalTime,
    names: Map<u32, Seq<char>>,
)
    ensures
        ({
            let lines = stall_lines(stall, local, names);
            let opening = duration::wall_time_text(local, stall.wall_ns) + " \u{2014} tid "@
                + text::decimal(stall.tid as nat) + " blocked "@ + duration::duration_text(
                stall.duration_ns,
            );
            &&& lines.len() >= 1
            &&& match stall.blocker {
                Blocker::Futex { address } => lines[0] == opening + " on futex 0x"@
                    + text::hexadecimal(address as nat),
                Blocker::BlockIo { dev, sector } => lines[0] == opening + " on block I/O (dev "@
                    + resolved_name(names, dev, None) + ", sector "@ + text::decimal(sector as nat)
                    + ")"@,
                Blocker::Unknown => lines[0] == opening + " (no correlated cause found)"@,
            }
        }),
{
    let line = stall_lines(stall, local, names)[0];
    let opening = duration::wall_time_text(local, stall.wall_ns) + " \u{2014} tid "@ + text::decimal(
        stall.tid as nat,
    ) + " blocked "@ + duration::duration_text(stall.duration_ns);
    match stall.blocker {
        Blocker::Futex { address } => {
            assert(line =~= opening + " on futex 0x"@ + text::hexadecimal(address as nat));
        },
        Blocker::BlockIo { dev, sector } => {
            assert(line =~= opening + " on block I/O (dev "@ + resolved_name(names, dev, None)
                + ", sector "@ + text::decimal(sector as nat) + ")"@);
        },
        Blocker::Unknown => {},
    }
}

/// The report on one chain is its lines; the report on two lists of chains is the one
/// on the first, an empty line, and the one on the second.
pub proof fn law_reports_are_joined_by_an_empty_line(
    chain: Seq<Seq<char>>,
    a: Seq<Seq<Seq<char>>>,
    b: Seq<Seq<Seq<char>>>,
)
    requires
        a.len() > 0,
        b.len() > 0,
    ensures
        report_lines(seq![chain]) == chain,
        report_lines(a + b) == report_lines(a) + seq![Seq::<char>::empty()] + report_lines(b),
    decreases b.len(),
{
    assert((a + b).drop_last() =~= a + b.drop_last());
    assert((a + b).last() == b.last());
    if b.len() == 1 {
        assert(b.drop_last() =~= Seq::<Seq<Seq<char>>>::empty());
        assert(a + b.drop_last() =~= a);
    } else {
        law_reports_are_joined_by_an_empty_line(chain, a, b.drop_last());
    }
    assert(report_lines(a + b) =~= report_lines(a) + seq![Seq::<char>::empty()] + report_lines(b));
}

/// The texts of lines and of chains are theirs, one for one.
pub proof fn law_texts_are_one_for_one(lines: Seq<String>, chains: Seq<Chain>, k: int)
    ensures
        texts(lines).len() == lines.len(),
        0 <= k < lines.len() ==> texts(lines)[k] == lines[k]@,
        chain_texts(chains).len() == chains.len(),
        0 <= k < chains.len() ==> chain_texts(chains)[k] == texts(chains[k].lines@),
{
}

/// How the last component of a path is found: from the end, slashes are passed over,
/// and so are dots that stand alone between slashes or at the start. Where nothing is
/// left, or only two dots are up to the next slash, there is none; else it is what is
/// left, up to the next slash. The first number given is where it begins, the second
/// where it ends.
pub proof fn law_last_component_is_found_from_the_end(path: Seq<char>) -> (span: (int, int))
    ensures
        ({
            let (start, end) = span;
            &&& 0 <= start <= end <= path.len()
            &&& forall|j: int|
                end <= j < path.len() ==> (#[trigger] path[j]) == '/' || (path[j] == '.' && (j == 0
                    || path[j - 1] == '/'))
            &&& end == 0 ==> last_component(path) is None
            &&& end > 0 ==> {
                &&& start < end
                &&& start == 0 || path[start - 1] == '/'
                &&& forall|j: int| start <= j < end ==> (#[trigger] path[j]) != '/'
                &&& !(end - start == 1 && path[start] == '.')
                &&& end - start == 2 && path[start] == '.' && path[start + 1] == '.'
                    ==> last_component(path) is None
                &&& !(end - start == 2 && path[start] == '.' && path[start + 1] == '.')
                    ==> last_component(path) == Some(path.subrange(start, end))
            }
        }),
    decreases path.len(),
{
    if path.len() == 0 {
        (0, 0)
    } else {
        let rest = path.drop_last();
        let last = path.len() - 1;
        let begin = lemma_component_begin(path, path.len() as int);
        lemma_behind_last_slash(path, begin, path.len() as int);
        assert(path.take(path.len() as int) =~= path);
        let component = path.subrange(begin, path.len() as int);
        if path.last() == '/' || component =~= seq!['.'] {
            let (start, end) = law_last_component_is_found_from_the_end(rest);
            if path.last() != '/' {
                assert(component.len() == 1 && component[0] == '.');
                assert(path[last] == '.');
            }
            assert forall|j: int| end <= j < path.len() implies (#[trigger] path[j]) == '/' || (
            path[j] == '.' && (j == 0 || path[j - 1] == '/')) by {
                if j < last {
                    assert(rest[j] == path[j]);
                    if j > 0 {
                        assert(rest[j - 1] == path[j - 1]);
                    }
                }
            }
            if end > 0 {
                assert forall|j: int| start <= j < end implies (#[trigger] path[j]) != '/' by {
                    assert(rest[j] == path[j]);
                }
                assert(rest[start] == path[start]);
                if start > 0 {
                    assert(rest[start - 1] == path[start - 1]);
                }
                assert(rest.subrange(start, end) =~= path.subrange(start, end));
            }
            (start, end)
        } else {
            if component.len() == 1 {
                assert(component[0] == path[begin]);
                assert(component[0] != '.') by {
                    if component[0] == '.' {
                        assert(component =~= seq!['.']);
                    }
                }
            }
            if component.len() == 2 && path[begin] == '.' && path[begin + 1] == '.' {
                assert(component =~= seq!['.', '.']);
            } else {
                assert(component != seq!['.', '.']) by {
                    if component == seq!['.', '.'] {
                        assert(component[0] == path[begin] && component[1] == path[begin + 1]);
                    }
                }
            }
            (begin, path.len() as int)
        }
    }
}

/// Where what stands behind the last slash before `end` begins.
proof fn lemma_component_begin(path: Seq<char>, end: int) -> (start: int)
    requires
        0 <= end <= path.len(),
    ensures
        0 <= start <= end,
        start == 0 || path[start - 1] == '/',
        forall|j: int| start <= j < end ==> (#[trigger] path[j]) != '/',
        end > 0 && path[end - 1] != '/' ==> start < end,
    decreases end,
{
    if end == 0 || path[end - 1] == '/' {
        end
    } else {
        lemma_component_begin(path, end - 1)
    }
}

} // verus!
