use whyslow::event::{
    decode_event, encode_event, pack_block_key, unpack_block_key, Event, EVENT_BLOCK_IO,
};
use whyslow::trace::{clock_ns, TraceEvent, TraceFile};

fn comm(name: &[u8]) -> [u8; 16] {
    let mut field = [0u8; 16];
    for (i, b) in name.iter().enumerate() {
        field[i] = *b;
    }
    field
}

fn record(ev: &Event, gap: u8, tail: u8) -> Vec<u8> {
    let mut bytes = Vec::new();
    bytes.extend_from_slice(&ev.timestamp_ns.to_le_bytes());
    bytes.extend_from_slice(&ev.duration_ns.to_le_bytes());
    bytes.extend_from_slice(&ev.key.to_le_bytes());
    bytes.extend_from_slice(&ev.pid.to_le_bytes());
    bytes.extend_from_slice(&ev.tid.to_le_bytes());
    bytes.push(ev.event_type);
    bytes.extend_from_slice(&[gap; 3]);
    bytes.extend_from_slice(&ev.comm);
    bytes.extend_from_slice(&[tail; 4]);
    bytes
}

fn sample() -> Event {
    Event::new(
        0x0102_0304_0506_0708,
        0xfffe_fdfc_fbfa_f9f8,
        u64::MAX,
        0x1122_3344,
        0xdead_beef,
        EVENT_BLOCK_IO,
        comm(b"kworker/0:1"),
    )
}

#[test]
fn record_decodes_to_the_event_it_was_made_of() {
    for (gap, tail) in [(0u8, 0u8), (0xff, 0xaa)] {
        let ev = decode_event(&record(&sample(), gap, tail)).unwrap();
        assert_eq!(ev.timestamp_ns, 0x0102_0304_0506_0708);
        assert_eq!(ev.duration_ns, 0xfffe_fdfc_fbfa_f9f8);
        assert_eq!(ev.key, u64::MAX);
        assert_eq!(ev.pid, 0x1122_3344);
        assert_eq!(ev.tid, 0xdead_beef);
        assert_eq!(ev.event_type, EVENT_BLOCK_IO);
        assert_eq!(ev._pad, [gap; 3]);
        assert_eq!(ev.comm, comm(b"kworker/0:1"));
    }
}

#[test]
fn new_events_are_laid_out_with_zeros_in_the_padding() {
    let ev = sample();
    assert_eq!(ev._pad, [0, 0, 0]);
    let item = encode_event(&ev);
    assert_eq!(item.to_vec(), record(&ev, 0, 0));
    assert_eq!(&item[..8], &[8, 7, 6, 5, 4, 3, 2, 1]);
    assert_eq!(&item[32..37], &[3, 0, 0, 0, b'k']);
    let back = decode_event(&item).unwrap();
    assert_eq!(encode_event(&back), item);
    assert_eq!((back.key, back.pid, back.tid, back.comm), (ev.key, ev.pid, ev.tid, ev.comm));
}

#[test]
fn items_of_another_length_are_no_events() {
    let bytes = record(&sample(), 0, 0);
    assert_eq!(bytes.len(), 56);
    assert!(decode_event(&bytes[..55]).is_none());
    assert!(decode_event(&[]).is_none());
    let mut longer = bytes.clone();
    longer.push(0);
    assert!(decode_event(&longer).is_none());
}

#[test]
fn command_name_ends_at_the_first_zero() {
    let mut ev = sample();
    let owned = TraceEvent::from(ev);
    assert_eq!(owned.comm, "kworker/0:1");
    assert_eq!(owned.timestamp_ns, ev.timestamp_ns);
    assert_eq!(owned.duration_ns, ev.duration_ns);
    assert_eq!(owned.key, ev.key);
    assert_eq!((owned.pid, owned.tid, owned.event_type), (ev.pid, ev.tid, ev.event_type));
    ev.comm = *b"sixteen bytes!!!";
    assert_eq!(TraceEvent::from(ev).comm, "sixteen bytes!!!");
    ev.comm = comm(b"a\0hidden");
    assert_eq!(TraceEvent::from(ev).comm, "a");
    ev.comm = comm(b"");
    assert_eq!(TraceEvent::from(ev).comm, "");
}

#[test]
fn command_name_that_is_not_utf8_is_replaced() {
    let mut ev = sample();
    ev.comm = comm(&[b'a', 0xff, b'b', 0xc3, 0xa9]);
    assert_eq!(TraceEvent::from(ev).comm, "a\u{fffd}b\u{e9}");
    let named = TraceEvent::with_comm(ev, String::from("given"));
    assert_eq!(named.comm, "given");
    assert_eq!(named.tid, ev.tid);
}

#[test]
fn block_keys_round_trip_up_to_32_bits_of_sector() {
    assert_eq!(pack_block_key(0x0080_0001, 88213), 0x0080_0001_0001_5895);
    assert_eq!(unpack_block_key(pack_block_key(0x1030_0002, 88213)), (0x1030_0002, 88213));
    assert_eq!(unpack_block_key(pack_block_key(u32::MAX, 0xffff_ffff)), (u32::MAX, 0xffff_ffff));
    assert_eq!(unpack_block_key(pack_block_key(1, 0x5_0000_0007)), (1, 7));
    assert_eq!(pack_block_key(1, 0x5_0000_0007), pack_block_key(1, 7));
    let (dev, sector) = unpack_block_key(0x0123_4567_89ab_cdef);
    assert_eq!(pack_block_key(dev, sector as u64), 0x0123_4567_89ab_cdef);
}

#[test]
fn wall_time_is_relative_to_the_anchor() {
    let trace = TraceFile { realtime_anchor_ns: 1_000, monotonic_anchor_ns: 400, events: Vec::new() };
    assert_eq!(trace.wall_ns_for(400), 1_000);
    assert_eq!(trace.wall_ns_for(650), 1_250);
    assert_eq!(trace.wall_ns_for(0), 600);
    let early = TraceFile { realtime_anchor_ns: 100, monotonic_anchor_ns: 400, events: Vec::new() };
    assert_eq!(early.wall_ns_for(200), 0);
    assert_eq!(early.wall_ns_for(301), 1);
    let late = TraceFile { realtime_anchor_ns: u64::MAX, monotonic_anchor_ns: 0, events: Vec::new() };
    assert_eq!(late.wall_ns_for(5), 4);
}

#[test]
fn clock_readings_are_nanoseconds() {
    assert_eq!(clock_ns(0, 0), 0);
    assert_eq!(clock_ns(1_700_000_000, 123_456_789), 1_700_000_000_123_456_789);
}
