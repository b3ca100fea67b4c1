//! A recorded trace: the events of one run, and the pair of clock readings that
//! ties their boot-time stamps to wall-clock time.

use vstd::prelude::*;

use vstd::slice::slice_subrange;

use crate::event::Event;

verus! {

/// Owned form of [`Event`], with the command name as text.
#[derive(Debug, Clone)]
pub struct TraceEvent {
    pub timestamp_ns: u64,
    pub duration_ns: u64,
    pub key: u64,
    pub pid: u32,
    pub tid: u32,
    pub event_type: u8,
    pub comm: String,
}

/// What `String::from_utf8_lossy` makes of `bytes`.
pub uninterp spec fn utf8_lossy(bytes: Seq<u8>) -> Seq<char>;

/// `String::from_utf8_lossy`: the text that the bytes spell, with replacement
/// characters where they are not UTF-8. Bytes that are valid UTF-8 come out as
/// exactly the text that they encode; what stands for invalid ones is only
/// named.
#[verifier::external_body]
fn text_from_utf8_lossy(bytes: &[u8]) -> (text: String)
    ensures
        text@ == utf8_lossy(bytes@),
        vstd::utf8::valid_utf8(bytes@) ==> text@ == vstd::utf8::decode_utf8(bytes@),
{
    String::from_utf8_lossy(bytes).into_owned()
}

/// How many bytes of a command name stand before its first zero byte.
pub open spec fn comm_len(comm: Seq<u8>) -> nat
    decreases comm.len(),
{
    if comm.len() == 0 || comm[0] == 0 {
        0
    } else {
        1 + comm_len(comm.drop_first())
    }
}

/// The length of the command name in the fixed-size field `comm`.
fn comm_end(comm: &[u8]) -> (end: usize)
    ensures
        end == comm_len(comm@),
        end <= comm@.len(),
{
    let mut end: usize = 0;
    assert(comm@.skip(0) =~= comm@);
    while end < comm.len() && comm[end] != 0
        invariant
            end <= comm@.len(),
            comm_len(comm@) == end + comm_len(comm@.skip(end as int)),
        decreases comm@.len() - end,
    {
        assert(comm@.skip(end as int).drop_first() =~= comm@.skip(end + 1));
        end = end + 1;
    }
    end
}

impl TraceEvent {
    /// The owned form of `ev`, with `comm` as its command name.
    pub fn with_comm(ev: Event, comm: String) -> (owned: Self)
        ensures
            owned.describes(ev),
            owned.timestamp_ns == ev.timestamp_ns,
            owned.duration_ns == ev.duration_ns,
            owned.key == ev.key,
            owned.pid == ev.pid,
            owned.tid == ev.tid,
            owned.event_type == ev.event_type,
            owned.comm@ == comm@,
    {
        TraceEvent {
            timestamp_ns: ev.timestamp_ns,
            duration_ns: ev.duration_ns,
            key: ev.key,
            pid: ev.pid,
            tid: ev.tid,
            event_type: ev.event_type,
            comm,
        }
    }

    /// Every field but the command name is that of `ev`.
    pub open spec fn describes(self, ev: Event) -> bool {
        &&& self.timestamp_ns == ev.timestamp_ns
        &&& self.duration_ns == ev.duration_ns
        &&& self.key == ev.key
        &&& self.pid == ev.pid
        &&& self.tid == ev.tid
        &&& self.event_type == ev.event_type
    }

    /// The owned form of the record `ev`: its fields, and the command name up
    /// to its first zero byte as text.
    pub open spec fn is_owned_form_of(self, ev: Event) -> bool {
        let name = ev.comm@.take(comm_len(ev.comm@) as int);
        &&& self.describes(ev)
        &&& self.comm@ == utf8_lossy(name)
        &&& vstd::utf8::valid_utf8(name) ==> self.comm@ == vstd::utf8::decode_utf8(name)
    }
}

impl From<Event> for TraceEvent {
    fn from(ev: Event) -> (owned: Self)
        ensures
            owned.is_owned_form_of(ev),
    {
        let bytes: &[u8] = ev.comm.as_slice();
        let end = comm_end(bytes);
        let name = slice_subrange(bytes, 0, end);
        assert(name@ =~= ev.comm@.take(comm_len(ev.comm@) as int));
        TraceEvent::with_comm(ev, text_from_utf8_lossy(name))
    }
}

impl vstd::std_specs::convert::FromSpecImpl<Event> for TraceEvent {
    open spec fn obeys_from_spec() -> bool {
        false
    }

    open spec fn from_spec(ev: Event) -> Self {
        arbitrary()
    }
}

/// On-disk trace format written by `run`/`attach` and read back by `explain`.
///
/// The stamps of the events are boot time, which is meaningless outside the
/// machine and boot that produced it. A same-instant `(realtime, monotonic)`
/// anchor pair, captured right before tracing starts, lets any later reader
/// recover wall-clock time.
#[derive(Debug)]
pub struct TraceFile {
    pub realtime_anchor_ns: u64,
    pub monotonic_anchor_ns: u64,
    pub events: Vec<TraceEvent>,
}

/// The wall-clock time, in nanoseconds, of the boot-time stamp `ts`: as far from
/// the realtime anchor as `ts` is from the monotonic one. A time before the
/// epoch is the epoch, and one beyond 64 bits keeps its low 64 bits.
pub open spec fn wall_ns(realtime_anchor_ns: u64, monotonic_anchor_ns: u64, ts: u64) -> int {
    let shifted = realtime_anchor_ns + ts - monotonic_anchor_ns;
    if shifted < 0 {
        0
    } else {
        shifted % 0x1_0000_0000_0000_0000
    }
}

impl TraceFile {
    pub fn wall_ns_for(&self, event_ts_ns: u64) -> (wall: u64)
        ensures
            wall == wall_ns(self.realtime_anchor_ns, self.monotonic_anchor_ns, event_ts_ns),
            0 <= self.realtime_anchor_ns + event_ts_ns - self.monotonic_anchor_ns <= u64::MAX
                ==> wall == self.realtime_anchor_ns + event_ts_ns - self.monotonic_anchor_ns,
            self.realtime_anchor_ns + event_ts_ns < self.monotonic_anchor_ns ==> wall == 0,
            self.realtime_anchor_ns + event_ts_ns - self.monotonic_anchor_ns > u64::MAX ==> wall
                == self.realtime_anchor_ns + event_ts_ns - self.monotonic_anchor_ns
                - 0x1_0000_0000_0000_0000,
    {
        let delta: i128 = event_ts_ns as i128 - self.monotonic_anchor_ns as i128;
        let shifted: i128 = self.realtime_anchor_ns as i128 + delta;
        if shifted < 0 {
            0
        } else {
            let wide: u128 = shifted as u128;
            assert(wide as u64 == wide % 0x1_0000_0000_0000_0000) by (bit_vector);
            wide as u64
        }
    }
}

/// The realtime anchor is the wall-clock time of the monotonic one.
pub proof fn law_anchor_is_fixed_point(realtime_anchor_ns: u64, monotonic_anchor_ns: u64)
    ensures
        wall_ns(realtime_anchor_ns, monotonic_anchor_ns, monotonic_anchor_ns)
            == realtime_anchor_ns,
{
}

/// Wall-clock times are as far apart as the stamps they belong to, as long as
/// neither is before the epoch or beyond 64 bits.
pub proof fn law_wall_time_keeps_distances(
    realtime_anchor_ns: u64,
    monotonic_anchor_ns: u64,
    a: u64,
    b: u64,
)
    requires
        0 <= realtime_anchor_ns + a - monotonic_anchor_ns <= u64::MAX,
        0 <= realtime_anchor_ns + b - monotonic_anchor_ns <= u64::MAX,
    ensures
        wall_ns(realtime_anchor_ns, monotonic_anchor_ns, a) - wall_ns(
            realtime_anchor_ns,
            monotonic_anchor_ns,
            b,
        ) == a - b,
{
}

/// A clock reading of seconds and nanoseconds as nanoseconds.
pub fn clock_ns(tv_sec: i64, tv_nsec: i64) -> (ns: u64)
    requires
        0 <= tv_sec,
        tv_sec * 1_000_000_000 + (tv_nsec as u64) <= u64::MAX,
    ensures
        ns == tv_sec * 1_000_000_000 + (tv_nsec as u64),
        0 <= tv_nsec ==> ns == tv_sec * 1_000_000_000 + tv_nsec,
{
    tv_sec as u64 * 1_000_000_000 + tv_nsec as u64
}

/// The command name in a fixed-size field goes up to the first zero byte, or fills
/// the field where there is none.
pub proof fn law_command_name_ends_at_the_first_zero(comm: Seq<u8>)
    ensures
        comm_len(comm) <= comm.len(),
        forall|i: int| 0 <= i < comm_len(comm) ==> #[trigger] comm[i] != 0,
        comm_len(comm) < comm.len() ==> comm[comm_len(comm) as int] == 0,
    decreases comm.len(),
{
    if comm.len() > 0 && comm[0] != 0 {
        let rest = comm.drop_first();
        law_command_name_ends_at_the_first_zero(rest);
        assert forall|i: int| 0 <= i < comm_len(comm) implies #[trigger] comm[i] != 0 by {
            if i > 0 {
                assert(rest[i - 1] == comm[i]);
            }
        }
    }
}

/// The owned form of a record has the record's fields, and as its command name what
/// the bytes before the first zero, or all `len` of them, spell.
pub proof fn law_owned_form_keeps_every_field(owned: TraceEvent, ev: Event, len: int)
    requires
        owned.is_owned_form_of(ev),
        0 <= len <= 16,
        forall|i: int| 0 <= i < len ==> #[trigger] ev.comm@[i] != 0,
        len < 16 ==> ev.comm@[len] == 0,
    ensures
        owned.timestamp_ns == ev.timestamp_ns,
        owned.duration_ns == ev.duration_ns,
        owned.key == ev.key,
        owned.pid == ev.pid,
        owned.tid == ev.tid,
        owned.event_type == ev.event_type,
        owned.comm@ == utf8_lossy(ev.comm@.take(len)),
        vstd::utf8::valid_utf8(ev.comm@.take(len)) ==> owned.comm@ == vstd::utf8::decode_utf8(
            ev.comm@.take(len),
        ),
{
    law_command_name_ends_at_the_first_zero(ev.comm@);
    let n = comm_len(ev.comm@) as int;
    if n < len {
        assert(ev.comm@[n] == 0);
    }
    if len < n {
        assert(ev.comm@[len] != 0);
    }
}

} // verus!
