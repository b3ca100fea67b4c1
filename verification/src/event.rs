//! The record schema that the kernel-side probes and the analyser share.

use vstd::prelude::*;

verus! {

/// Thread went off-CPU (blocked, non-runnable) and later resumed running.
/// `duration_ns` is the time spent off-CPU; `key` is unused (0).
pub const EVENT_SCHED_BLOCK: u8 = 0;

/// A `futex(FUTEX_WAIT[_BITSET])` syscall returned. `duration_ns` is the full
/// syscall span (enter to exit); `key` is the futex address (`uaddr`).
pub const EVENT_FUTEX_WAIT: u8 = 1;

/// A `futex(FUTEX_WAKE[_BITSET])` syscall returned. `duration_ns` is the
/// syscall's own (usually tiny) span; `key` is the futex address (`uaddr`).
pub const EVENT_FUTEX_WAKE: u8 = 2;

/// A block I/O request this thread issued has completed. `duration_ns` is the
/// issue-to-complete latency; `key` packs `(dev, sector)`, see [`pack_block_key`].
pub const EVENT_BLOCK_IO: u8 = 3;

/// Length of a task's command name in the kernel.
pub const TASK_COMM_LEN: usize = 16;

/// Bytes of one record in the ring buffer: the fields of [`Event`] in order,
/// little-endian, with the padding that a C compiler puts behind them.
pub const EVENT_RECORD_LEN: usize = 56;

/// Fixed-size event record written to the shared ring buffer.
///
/// No event type uses every field; unused fields are zeroed.
#[derive(Copy, Clone, Debug)]
pub struct Event {
    /// Boot-time nanoseconds at which this event became knowable: the *end* of
    /// whatever span it describes.
    pub timestamp_ns: u64,
    /// Length of the span this event describes.
    pub duration_ns: u64,
    /// Futex address, or a packed (dev, sector) for block I/O.
    pub key: u64,
    /// Thread group ID (what userspace calls "pid").
    pub pid: u32,
    /// Thread ID.
    pub tid: u32,
    pub event_type: u8,
    /// Brings the command name to a multiple of four bytes; zero in a new event.
    pub _pad: [u8; 3],
    pub comm: [u8; TASK_COMM_LEN],
}

/// The padding of a new event.
pub open spec fn zero_pad() -> [u8; 3] {
    [0u8, 0u8, 0u8]
}

impl Event {
    pub fn new(
        timestamp_ns: u64,
        duration_ns: u64,
        key: u64,
        pid: u32,
        tid: u32,
        event_type: u8,
        comm: [u8; TASK_COMM_LEN],
    ) -> (ev: Self)
        ensures
            ev.timestamp_ns == timestamp_ns,
            ev.duration_ns == duration_ns,
            ev.key == key,
            ev.pid == pid,
            ev.tid == tid,
            ev.event_type == event_type,
            ev._pad == zero_pad(),
            ev._pad@ == seq![0u8, 0u8, 0u8],
            ev.comm == comm,
    {
        let ev = Event {
            timestamp_ns,
            duration_ns,
            key,
            pid,
            tid,
            event_type,
            _pad: [0, 0, 0],
            comm,
        };
        assert(ev._pad =~= zero_pad());
        ev
    }
}

/// The number that `bytes` hold, least significant byte first.
pub open spec fn le_value(bytes: Seq<u8>) -> nat
    decreases bytes.len(),
{
    if bytes.len() == 0 {
        0
    } else {
        bytes[0] as nat + 256 * le_value(bytes.drop_first())
    }
}

/// The lowest `len` bytes of `n`, least significant byte first.
pub open spec fn le_bytes(n: nat, len: nat) -> Seq<u8>
    decreases len,
{
    if len == 0 {
        Seq::empty()
    } else {
        seq![(n % 256) as u8] + le_bytes(n / 256, (len - 1) as nat)
    }
}

/// `256^len`, the count of the numbers that `len` bytes can hold.
pub open spec fn byte_range(len: nat) -> nat
    decreases len,
{
    if len == 0 {
        1
    } else {
        256 * byte_range((len - 1) as nat)
    }
}

/// `item` is a record whose fields are those of `ev`.
pub open spec fn record_holds(item: Seq<u8>, ev: Event) -> bool {
    &&& item.len() == EVENT_RECORD_LEN
    &&& ev.timestamp_ns == le_value(item.subrange(0, 8))
    &&& ev.duration_ns == le_value(item.subrange(8, 16))
    &&& ev.key == le_value(item.subrange(16, 24))
    &&& ev.pid == le_value(item.subrange(24, 28))
    &&& ev.tid == le_value(item.subrange(28, 32))
    &&& ev.event_type == item[32]
    &&& ev._pad@ == item.subrange(33, 36)
    &&& ev.comm@ == item.subrange(36, 52)
}

/// The bytes of the record that holds `ev`, with `tail` in the four bytes behind
/// the command name that no field has.
pub open spec fn record_bytes(ev: Event, tail: Seq<u8>) -> Seq<u8> {
    le_bytes(ev.timestamp_ns as nat, 8) + le_bytes(ev.duration_ns as nat, 8) + le_bytes(
        ev.key as nat,
        8,
    ) + le_bytes(ev.pid as nat, 4) + le_bytes(ev.tid as nat, 4) + seq![ev.event_type]
        + ev._pad@ + ev.comm@ + tail
}

proof fn lemma_le_bytes(n: nat, len: nat)
    requires
        n < byte_range(len),
    ensures
        le_bytes(n, len).len() == len,
        le_value(le_bytes(n, len)) == n,
    decreases len,
{
    if len > 0 {
        lemma_le_bytes(n / 256, (len - 1) as nat);
        assert(le_bytes(n, len).drop_first() =~= le_bytes(n / 256, (len - 1) as nat));
    }
}

/// Whatever event the kernel side writes, its record decodes to that event and
/// to no other, whatever stands in the bytes that no field has.
pub proof fn law_record_round_trip(ev: Event, tail: Seq<u8>)
    requires
        tail.len() == 4,
    ensures
        record_bytes(ev, tail).len() == EVENT_RECORD_LEN,
        record_holds(record_bytes(ev, tail), ev),
        forall|decoded: Event| #[trigger]
            record_holds(record_bytes(ev, tail), decoded) ==> decoded == ev,
{
    reveal_with_fuel(byte_range, 9);
    lemma_le_bytes(ev.timestamp_ns as nat, 8);
    lemma_le_bytes(ev.duration_ns as nat, 8);
    lemma_le_bytes(ev.key as nat, 8);
    lemma_le_bytes(ev.pid as nat, 4);
    lemma_le_bytes(ev.tid as nat, 4);
    let item = record_bytes(ev, tail);
    assert(item.subrange(0, 8) =~= le_bytes(ev.timestamp_ns as nat, 8));
    assert(item.subrange(8, 16) =~= le_bytes(ev.duration_ns as nat, 8));
    assert(item.subrange(16, 24) =~= le_bytes(ev.key as nat, 8));
    assert(item.subrange(24, 28) =~= le_bytes(ev.pid as nat, 4));
    assert(item.subrange(28, 32) =~= le_bytes(ev.tid as nat, 4));
    assert(item.subrange(33, 36) =~= ev._pad@);
    assert(item.subrange(36, 52) =~= ev.comm@);
    assert forall|decoded: Event| #[trigger] record_holds(item, decoded) implies decoded == ev by {
        law_record_is_unambiguous(item, ev, decoded);
    }
}

/// A record holds one event only.
pub proof fn law_record_is_unambiguous(item: Seq<u8>, a: Event, b: Event)
    requires
        record_holds(item, a),
        record_holds(item, b),
    ensures
        a == b,
{
    assert(a._pad =~= b._pad);
    assert(a.comm =~= b.comm);
}

/// The four bytes at `at`, read little-endian.
fn read_u32(item: &[u8], at: usize) -> (n: u32)
    requires
        at + 4 <= item.len(),
    ensures
        n == le_value(item@.subrange(at as int, at + 4)),
{
    proof {
        reveal_with_fuel(le_value, 5);
        let s = item@.subrange(at as int, at + 4);
        assert(s.drop_first().drop_first().drop_first().drop_first() =~= Seq::<u8>::empty());
    }
    item[at] as u32 + 256 * (item[at + 1] as u32 + 256 * (item[at + 2] as u32 + 256 * (item[at
        + 3] as u32)))
}

/// The eight bytes at `at`, read little-endian.
fn read_u64(item: &[u8], at: usize) -> (n: u64)
    requires
        at + 8 <= item.len(),
    ensures
        n == le_value(item@.subrange(at as int, at + 8)),
{
    proof {
        let s = item@.subrange(at as int, at + 8);
        reveal_with_fuel(le_value, 5);
        assert(s.drop_first().drop_first().drop_first().drop_first() =~= item@.subrange(
            at + 4,
            at + 8,
        ));
    }
    let low = read_u32(item, at);
    let high = read_u32(item, at + 4);
    low as u64 + 4294967296 * (high as u64)
}

/// Reads one ring-buffer item. An item that has not exactly the length of a
/// record is no event.
pub fn decode_event(item: &[u8]) -> (decoded: Option<Event>)
    ensures
        decoded is Some <==> item@.len() == EVENT_RECORD_LEN,
        decoded is Some <==> item@.len() == 56,
        decoded matches Some(ev) ==> record_holds(item@, ev),
{
    if item.len() != EVENT_RECORD_LEN {
        return None;
    }
    let ev = Event {
        timestamp_ns: read_u64(item, 0),
        duration_ns: read_u64(item, 8),
        key: read_u64(item, 16),
        pid: read_u32(item, 24),
        tid: read_u32(item, 28),
        event_type: item[32],
        _pad: [item[33], item[34], item[35]],
        comm: [
            item[36],
            item[37],
            item[38],
            item[39],
            item[40],
            item[41],
            item[42],
            item[43],
            item[44],
            item[45],
            item[46],
            item[47],
            item[48],
            item[49],
            item[50],
            item[51],
        ],
    };
    assert(ev._pad@ =~= item@.subrange(33, 36));
    assert(ev.comm@ =~= item@.subrange(36, 52));
    Some(ev)
}

/// The four bytes of `n`, least significant byte first.
fn bytes_of_u32(n: u32) -> (bytes: [u8; 4])
    ensures
        bytes@ == le_bytes(n as nat, 4),
{
    let n1: u32 = n / 256;
    let n2: u32 = n1 / 256;
    let n3: u32 = n2 / 256;
    let bytes = [(n % 256) as u8, (n1 % 256) as u8, (n2 % 256) as u8, (n3 % 256) as u8];
    proof {
        reveal_with_fuel(le_bytes, 5);
        assert(bytes@ =~= le_bytes(n as nat, 4));
    }
    bytes
}

/// The eight bytes of `n`, least significant byte first.
fn bytes_of_u64(n: u64) -> (bytes: [u8; 8])
    ensures
        bytes@ == le_bytes(n as nat, 8),
{
    let n1: u64 = n / 256;
    let n2: u64 = n1 / 256;
    let n3: u64 = n2 / 256;
    let n4: u64 = n3 / 256;
    let n5: u64 = n4 / 256;
    let n6: u64 = n5 / 256;
    let n7: u64 = n6 / 256;
    let bytes = [
        (n % 256) as u8,
        (n1 % 256) as u8,
        (n2 % 256) as u8,
        (n3 % 256) as u8,
        (n4 % 256) as u8,
        (n5 % 256) as u8,
        (n6 % 256) as u8,
        (n7 % 256) as u8,
    ];
    proof {
        reveal_with_fuel(le_bytes, 9);
        assert(bytes@ =~= le_bytes(n as nat, 8));
    }
    bytes
}

/// Lays `ev` out as a ring-buffer record, with zeros in the bytes that no field
/// has.
pub fn encode_event(ev: &Event) -> (item: [u8; EVENT_RECORD_LEN])
    ensures
        item@ == record_bytes(*ev, seq![0u8, 0u8, 0u8, 0u8]),
        record_holds(item@, *ev),
        item@.len() == 56,
        forall|k: int| 52 <= k < 56 ==> #[trigger] item@[k] == 0,
{
    let ts = bytes_of_u64(ev.timestamp_ns);
    let dur = bytes_of_u64(ev.duration_ns);
    let key = bytes_of_u64(ev.key);
    let pid = bytes_of_u32(ev.pid);
    let tid = bytes_of_u32(ev.tid);
    let pad = ev._pad;
    let comm = ev.comm;
    let item: [u8; EVENT_RECORD_LEN] = [
        ts[0], ts[1], ts[2], ts[3], ts[4], ts[5], ts[6], ts[7],
        dur[0], dur[1], dur[2], dur[3], dur[4], dur[5], dur[6], dur[7],
        key[0], key[1], key[2], key[3], key[4], key[5], key[6], key[7],
        pid[0], pid[1], pid[2], pid[3],
        tid[0], tid[1], tid[2], tid[3],
        ev.event_type,
        pad[0], pad[1], pad[2],
        comm[0], comm[1], comm[2], comm[3], comm[4], comm[5], comm[6], comm[7],
        comm[8], comm[9], comm[10], comm[11], comm[12], comm[13], comm[14], comm[15],
        0, 0, 0, 0,
    ];
    assert(item@ =~= record_bytes(*ev, seq![0u8, 0u8, 0u8, 0u8]));
    proof {
        law_record_round_trip(*ev, seq![0u8, 0u8, 0u8, 0u8]);
    }
    item
}

/// The key under which a device and a sector of it are known: the device in
/// the upper half, the low 32 bits of the sector in the lower half.
pub open spec fn block_key(dev: u32, sector: u64) -> int {
    dev * 0x1_0000_0000 + sector % 0x1_0000_0000
}

/// Pack a block device's `(major:minor, sector)` into the 64-bit `Event::key`.
///
/// `sector` is truncated to its low 32 bits; `dev` is carried in full.
pub fn pack_block_key(dev: u32, sector: u64) -> (key: u64)
    ensures
        key == block_key(dev, sector),
{
    let key = ((dev as u64) << 32) | (sector & 0xFFFF_FFFF);
    assert(key == dev as u64 * 0x1_0000_0000 + sector % 0x1_0000_0000) by (bit_vector)
        requires
            key == ((dev as u64) << 32) | (sector & 0xFFFF_FFFF),
    ;
    key
}

/// The device and the sector that a key stands for.
pub fn unpack_block_key(key: u64) -> (parts: (u32, u32))
    ensures
        parts.0 == key / 0x1_0000_0000,
        parts.1 == key % 0x1_0000_0000,
{
    assert(key >> 32 == key / 0x1_0000_0000) by (bit_vector);
    assert(key & 0xFFFF_FFFF == key % 0x1_0000_0000) by (bit_vector);
    ((key >> 32) as u32, (key & 0xFFFF_FFFF) as u32)
}

/// Unpacking a packed key gives back the device, and the sector up to its low
/// 32 bits: the sector itself wherever it is below 2^32.
pub proof fn law_block_key_round_trip(dev: u32, sector: u64)
    ensures
        0 <= block_key(dev, sector) <= u64::MAX,
        block_key(dev, sector) / 0x1_0000_0000 == dev,
        block_key(dev, sector) % 0x1_0000_0000 == sector % 0x1_0000_0000,
        sector < 0x1_0000_0000 ==> block_key(dev, sector) % 0x1_0000_0000 == sector,
{
}

/// Packing the parts of any key gives the key back.
pub proof fn law_block_key_covers_every_key(key: u64)
    ensures
        block_key((key / 0x1_0000_0000) as u32, (key % 0x1_0000_0000) as u64) == key,
{
}

/// Two requests share a key exactly when they are on one device and their
/// sectors agree in the low 32 bits.
pub proof fn law_block_key_collisions(dev1: u32, sector1: u64, dev2: u32, sector2: u64)
    ensures
        block_key(dev1, sector1) == block_key(dev2, sector2) <==> dev1 == dev2 && sector1
            % 0x1_0000_0000 == sector2 % 0x1_0000_0000,
{
}

/// Four bytes as a number, written out.
proof fn lemma_four_bytes(bytes: Seq<u8>)
    requires
        bytes.len() == 4,
    ensures
        le_value(bytes) == bytes[0] + 0x100 * bytes[1] + 0x1_0000 * bytes[2] + 0x100_0000
            * bytes[3],
{
    reveal_with_fuel(le_value, 5);
}

/// Eight bytes as a number, written out.
proof fn lemma_eight_bytes(bytes: Seq<u8>)
    requires
        bytes.len() == 8,
    ensures
        le_value(bytes) == bytes[0] + 0x100 * bytes[1] + 0x1_0000 * bytes[2] + 0x100_0000
            * bytes[3] + 0x1_0000_0000 * bytes[4] + 0x100_0000_0000 * bytes[5]
            + 0x1_0000_0000_0000 * bytes[6] + 0x100_0000_0000_0000 * bytes[7],
{
    reveal_with_fuel(le_value, 9);
}

/// Where each field of an event stands in its record, byte by byte: numbers from the
/// lowest byte to the highest, the command name as it is, and the type in between.
pub proof fn law_fields_stand_at_fixed_places(item: Seq<u8>, ev: Event)
    requires
        record_holds(item, ev),
    ensures
        item.len() == 56,
        ev.timestamp_ns == item[0] + 0x100 * item[1] + 0x1_0000 * item[2] + 0x100_0000 * item[3]
            + 0x1_0000_0000 * item[4] + 0x100_0000_0000 * item[5] + 0x1_0000_0000_0000 * item[6]
            + 0x100_0000_0000_0000 * item[7],
        ev.duration_ns == item[8] + 0x100 * item[9] + 0x1_0000 * item[10] + 0x100_0000 * item[11]
            + 0x1_0000_0000 * item[12] + 0x100_0000_0000 * item[13]
            + 0x1_0000_0000_0000 * item[14] + 0x100_0000_0000_0000 * item[15],
        ev.key == item[16] + 0x100 * item[17] + 0x1_0000 * item[18] + 0x100_0000 * item[19]
            + 0x1_0000_0000 * item[20] + 0x100_0000_0000 * item[21]
            + 0x1_0000_0000_0000 * item[22] + 0x100_0000_0000_0000 * item[23],
        ev.pid == item[24] + 0x100 * item[25] + 0x1_0000 * item[26] + 0x100_0000 * item[27],
        ev.tid == item[28] + 0x100 * item[29] + 0x1_0000 * item[30] + 0x100_0000 * item[31],
        ev.event_type == item[32],
        forall|k: int| 0 <= k < 3 ==> #[trigger] ev._pad@[k] == item[33 + k],
        forall|k: int| 0 <= k < 16 ==> #[trigger] ev.comm@[k] == item[36 + k],
{
    lemma_eight_bytes(item.subrange(0, 8));
    lemma_eight_bytes(item.subrange(8, 16));
    lemma_eight_bytes(item.subrange(16, 24));
    lemma_four_bytes(item.subrange(24, 28));
    lemma_four_bytes(item.subrange(28, 32));
}

/// An item of 56 bytes is the record of the event whose fields stand at those places.
pub proof fn law_every_item_of_the_right_length_is_a_record(item: Seq<u8>, ev: Event)
    requires
        item.len() == 56,
        ev.timestamp_ns == item[0] + 0x100 * item[1] + 0x1_0000 * item[2] + 0x100_0000 * item[3]
            + 0x1_0000_0000 * item[4] + 0x100_0000_0000 * item[5] + 0x1_0000_0000_0000 * item[6]
            + 0x100_0000_0000_0000 * item[7],
        ev.duration_ns == item[8] + 0x100 * item[9] + 0x1_0000 * item[10] + 0x100_0000 * item[11]
            + 0x1_0000_0000 * item[12] + 0x100_0000_0000 * item[13]
            + 0x1_0000_0000_0000 * item[14] + 0x100_0000_0000_0000 * item[15],
        ev.key == item[16] + 0x100 * item[17] + 0x1_0000 * item[18] + 0x100_0000 * item[19]
            + 0x1_0000_0000 * item[20] + 0x100_0000_0000 * item[21]
            + 0x1_0000_0000_0000 * item[22] + 0x100_0000_0000_0000 * item[23],
        ev.pid == item[24] + 0x100 * item[25] + 0x1_0000 * item[26] + 0x100_0000 * item[27],
        ev.tid == item[28] + 0x100 * item[29] + 0x1_0000 * item[30] + 0x100_0000 * item[31],
        ev.event_type == item[32],
        forall|k: int| 0 <= k < 3 ==> #[trigger] ev._pad@[k] == item[33 + k],
        forall|k: int| 0 <= k < 16 ==> #[trigger] ev.comm@[k] == item[36 + k],
    ensures
        record_holds(item, ev),
{
    lemma_eight_bytes(item.subrange(0, 8));
    lemma_eight_bytes(item.subrange(8, 16));
    lemma_eight_bytes(item.subrange(16, 24));
    lemma_four_bytes(item.subrange(24, 28));
    lemma_four_bytes(item.subrange(28, 32));
    assert(ev._pad@ =~= item.subrange(33, 36));
    assert(ev.comm@ =~= item.subrange(36, 52));
}

/// The key of a request holds its device in the upper half and the low half of its
/// sector in the lower.
pub proof fn law_key_is_device_and_sector(dev: u32, sector: u64, high: nat)
    requires
        high * 0x1_0000_0000 <= sector < (high + 1) * 0x1_0000_0000,
    ensures
        block_key(dev, sector) == dev * 0x1_0000_0000 + (sector - high * 0x1_0000_0000),
{
}

/// The numbers by which the two sides know the types of events.
pub proof fn law_event_types_are_told_apart()
    ensures
        EVENT_SCHED_BLOCK == 0,
        EVENT_FUTEX_WAIT == 1,
        EVENT_FUTEX_WAKE == 2,
        EVENT_BLOCK_IO == 3,
{
}

} // verus!
