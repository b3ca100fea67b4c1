//! Draining the ring buffer, as a machine that is told what happened and says
//! what to do next.

use vstd::prelude::*;

use crate::event;
use crate::event::{decode_event, EVENT_RECORD_LEN};
use crate::trace::TraceEvent;

verus! {

/// What the drain is waiting to be told.
#[derive(Clone, Copy, Debug, PartialEq, Eq, Structural)]
pub enum DrainPhase {
    /// The next item of the ring, or that it is empty.
    Draining,
    /// Whether to stop.
    Asking,
    /// That a poll of the ring with a bounded timeout has returned.
    Polling,
    /// The next item of the ring, or that it is empty, after the decision to
    /// stop: items may have landed before it was taken.
    LastDrain,
    /// Nothing more.
    Finished,
}

/// The events that have been drained, and what comes next.
pub struct Drain {
    pub phase: DrainPhase,
    pub events: Vec<TraceEvent>,
}

/// `owned` is the event that the record in `item` holds.
pub open spec fn event_of_item(item: Seq<u8>, owned: TraceEvent) -> bool {
    exists|ev: event::Event| event::record_holds(item, ev) && owned.is_owned_form_of(ev)
}

/// Taking `item` turned the list `before` into `after`: a record is appended as
/// an event, and an item that is no record is dropped.
pub open spec fn took_item(item: Seq<u8>, before: Seq<TraceEvent>, after: Seq<TraceEvent>) -> bool {
    if item.len() == EVENT_RECORD_LEN {
        &&& after.len() == before.len() + 1
        &&& after.drop_last() == before
        &&& event_of_item(item, after.last())
    } else {
        after == before
    }
}

/// What a drain is told.
pub enum Told {
    /// The ring gave this item.
    Item(Seq<u8>),
    /// The ring was empty.
    Empty,
    /// Whether to stop.
    Answer(bool),
    /// The poll returned.
    Polled,
}

/// What the drain waits for after it was told `told`, if it waited for that.
pub open spec fn next_phase(phase: DrainPhase, told: Told) -> Option<DrainPhase> {
    match (phase, told) {
        (DrainPhase::Draining, Told::Item(_)) => Some(DrainPhase::Draining),
        (DrainPhase::Draining, Told::Empty) => Some(DrainPhase::Asking),
        (DrainPhase::Asking, Told::Answer(stop)) => if stop {
            Some(DrainPhase::LastDrain)
        } else {
            Some(DrainPhase::Polling)
        },
        (DrainPhase::Polling, Told::Polled) => Some(DrainPhase::Draining),
        (DrainPhase::LastDrain, Told::Item(_)) => Some(DrainPhase::LastDrain),
        (DrainPhase::LastDrain, Told::Empty) => Some(DrainPhase::Finished),
        _ => None,
    }
}

/// Being told `told` took a drain from one phase and list of events to another.
pub open spec fn stepped(
    phase: DrainPhase,
    before: Seq<TraceEvent>,
    told: Told,
    next: DrainPhase,
    after: Seq<TraceEvent>,
) -> bool {
    &&& next_phase(phase, told) == Some(next)
    &&& match told {
        Told::Item(item) => took_item(item, before, after),
        _ => after == before,
    }
}

/// A new drain that was told all of `told` has come to `phase` and `events`.
pub open spec fn ran(told: Seq<Told>, phase: DrainPhase, events: Seq<TraceEvent>) -> bool
    decreases told.len(),
{
    if told.len() == 0 {
        phase == DrainPhase::Draining && events.len() == 0
    } else {
        exists|p: DrainPhase, before: Seq<TraceEvent>|
            ran(told.drop_last(), p, before) && #[trigger] stepped(
                p,
                before,
                told.last(),
                phase,
                events,
            )
    }
}

impl Drain {
    pub fn new() -> (drain: Self)
        ensures
            drain.phase == DrainPhase::Draining,
            drain.events@.len() == 0,
            ran(Seq::empty(), drain.phase, drain.events@),
    {
        Drain { phase: DrainPhase::Draining, events: Vec::new() }
    }

    /// The ring gave `item`, or was empty.
    pub fn on_item(&mut self, item: Option<&[u8]>)
        requires
            old(self).phase == DrainPhase::Draining || old(self).phase == DrainPhase::LastDrain,
        ensures
            stepped(
                old(self).phase,
                old(self).events@,
                match item {
                    Some(bytes) => Told::Item(bytes@),
                    None => Told::Empty,
                },
                final(self).phase,
                final(self).events@,
            ),
            item is Some ==> final(self).phase == old(self).phase,
            item is None && old(self).phase == DrainPhase::Draining ==> final(self).phase
                == DrainPhase::Asking,
            item is None && old(self).phase == DrainPhase::LastDrain ==> final(self).phase
                == DrainPhase::Finished,
            !(item matches Some(bytes) && bytes@.len() == 56) ==> final(self).events@ == old(
                self,
            ).events@,
            item matches Some(bytes) && bytes@.len() == 56 ==> final(self).events@.len() == old(
                self,
            ).events@.len() + 1,
            forall|k: int|
                0 <= k < old(self).events@.len() ==> #[trigger] final(self).events@[k] == old(
                    self,
                ).events@[k],
    {
        match item {
            Some(bytes) => {
                if let Some(ev) = decode_event(bytes) {
                    let owned = TraceEvent::from(ev);
                    self.events.push(owned);
                    assert(event_of_item(bytes@, owned));
                    assert(self.events@.drop_last() =~= old(self).events@);
                }
            },
            None => {
                self.phase = if self.phase == DrainPhase::Draining {
                    DrainPhase::Asking
                } else {
                    DrainPhase::Finished
                };
            },
        }
    }

    /// The question whether to stop was answered.
    pub fn on_answer(&mut self, stop: bool)
        requires
            old(self).phase == DrainPhase::Asking,
        ensures
            stepped(
                old(self).phase,
                old(self).events@,
                Told::Answer(stop),
                final(self).phase,
                final(self).events@,
            ),
            final(self).phase == (if stop {
                DrainPhase::LastDrain
            } else {
                DrainPhase::Polling
            }),
            final(self).events@ == old(self).events@,
    {
        self.phase = if stop {
            DrainPhase::LastDrain
        } else {
            DrainPhase::Polling
        };
    }

    /// The poll returned.
    pub fn on_poll(&mut self)
        requires
            old(self).phase == DrainPhase::Polling,
        ensures
            stepped(
                old(self).phase,
                old(self).events@,
                Told::Polled,
                final(self).phase,
                final(self).events@,
            ),
            final(self).phase == DrainPhase::Draining,
            final(self).events@ == old(self).events@,
    {
        self.phase = DrainPhase::Draining;
    }
}

/// The items that are records, in order.
pub open spec fn records(items: Seq<Seq<u8>>) -> Seq<Seq<u8>>
    decreases items.len(),
{
    if items.len() == 0 {
        Seq::empty()
    } else if items.last().len() == EVENT_RECORD_LEN {
        records(items.drop_last()).push(items.last())
    } else {
        records(items.drop_last())
    }
}

/// `events` are the events of the records among `items`: all of them, once each,
/// in order, and nothing else.
pub open spec fn account_of(items: Seq<Seq<u8>>, events: Seq<TraceEvent>) -> bool {
    &&& events.len() == records(items).len()
    &&& forall|k: int|
        0 <= k < events.len() ==> event_of_item(records(items)[k], #[trigger] events[k])
}

/// The items among what a drain was told, in order.
pub open spec fn items(told: Seq<Told>) -> Seq<Seq<u8>>
    decreases told.len(),
{
    if told.len() == 0 {
        Seq::empty()
    } else {
        match told.last() {
            Told::Item(item) => items(told.drop_last()).push(item),
            _ => items(told.drop_last()),
        }
    }
}

/// Taking one more item keeps the account.
proof fn lemma_item_is_accounted_for(
    given: Seq<Seq<u8>>,
    item: Seq<u8>,
    before: Seq<TraceEvent>,
    after: Seq<TraceEvent>,
)
    requires
        account_of(given, before),
        took_item(item, before, after),
    ensures
        account_of(given.push(item), after),
{
    let more = given.push(item);
    assert(more.drop_last() =~= given);
    assert(more.last() == item);
    if item.len() == EVENT_RECORD_LEN {
        assert forall|k: int| 0 <= k < after.len() implies event_of_item(
            records(more)[k],
            #[trigger] after[k],
        ) by {
            if k < before.len() {
                assert(after[k] == after.drop_last()[k]);
                assert(event_of_item(records(given)[k], before[k]));
            } else {
                assert(after[k] == after.last());
            }
        }
    }
}

/// No record that the ring gave is lost, doubled or moved: at every point of a
/// drain its events account for all the items so far.
pub proof fn law_no_record_is_lost(
    told: Seq<Told>,
    phase: DrainPhase,
    events: Seq<TraceEvent>,
)
    requires
        ran(told, phase, events),
    ensures
        account_of(items(told), events),
    decreases told.len(),
{
    if told.len() > 0 {
        let (p, before) = choose|p: DrainPhase, before: Seq<TraceEvent>|
            ran(told.drop_last(), p, before) && #[trigger] stepped(
                p,
                before,
                told.last(),
                phase,
                events,
            );
        law_no_record_is_lost(told.drop_last(), p, before);
        if let Told::Item(item) = told.last() {
            lemma_item_is_accounted_for(items(told.drop_last()), item, before, events);
        }
    }
}

/// The decision to stop was the `k`-th thing a drain was told, and from then on
/// it was told only of items.
pub open spec fn stopped_at(told: Seq<Told>, k: int) -> bool {
    &&& 0 <= k < told.len()
    &&& told[k] == Told::Answer(true)
    &&& forall|j: int| k < j < told.len() ==> (#[trigger] told[j]) is Item
}

/// A drain ends only after a last look at the ring: once it was told to stop it
/// takes every item that is still there, and finishes when the ring is empty.
pub proof fn law_drain_ends_on_an_empty_ring(
    told: Seq<Told>,
    phase: DrainPhase,
    events: Seq<TraceEvent>,
)
    requires
        ran(told, phase, events),
    ensures
        phase == DrainPhase::LastDrain ==> exists|k: int| stopped_at(told, k),
        phase == DrainPhase::Finished ==> {
            &&& told.len() > 0
            &&& told.last() == Told::Empty
            &&& exists|k: int| stopped_at(told.drop_last(), k)
        },
    decreases told.len(),
{
    if told.len() > 0 {
        let earlier = told.drop_last();
        let (p, before) = choose|p: DrainPhase, before: Seq<TraceEvent>|
            ran(earlier, p, before) && #[trigger] stepped(
                p,
                before,
                told.last(),
                phase,
                events,
            );
        law_drain_ends_on_an_empty_ring(earlier, p, before);
        if phase == DrainPhase::LastDrain {
            if p == DrainPhase::LastDrain {
                let k = choose|k: int| stopped_at(earlier, k);
                assert forall|j: int| k < j < told.len() implies (#[trigger] told[j]) is Item by {
                    if j < earlier.len() {
                        assert(earlier[j] is Item);
                    }
                }
                assert(told[k] == earlier[k]);
                assert(stopped_at(told, k));
            } else {
                assert(stopped_at(told, told.len() - 1));
            }
        }
    }
}

/// The event that a drain takes out of an item has its fields from their places in
/// the item, byte by byte, and the name that the bytes of the command spell, up to
/// the first zero of them or all `len`.
pub proof fn law_drained_events_are_read_byte_by_byte(
    item: Seq<u8>,
    before: Seq<TraceEvent>,
    after: Seq<TraceEvent>,
    len: int,
)
    requires
        took_item(item, before, after),
        item.len() == 56,
        0 <= len <= 16,
        forall|i: int| 36 <= i < 36 + len ==> #[trigger] item[i] != 0,
        len < 16 ==> item[36 + len] == 0,
    ensures
        after.len() == before.len() + 1,
        forall|k: int| 0 <= k < before.len() ==> #[trigger] after[k] == before[k],
        ({
            let taken = after[before.len() as int];
            &&& taken.timestamp_ns == item[0] + 0x100 * item[1] + 0x1_0000 * item[2]
                + 0x100_0000 * item[3] + 0x1_0000_0000 * item[4] + 0x100_0000_0000 * item[5]
                + 0x1_0000_0000_0000 * item[6] + 0x100_0000_0000_0000 * item[7]
            &&& taken.duration_ns == item[8] + 0x100 * item[9] + 0x1_0000 * item[10]
                + 0x100_0000 * item[11] + 0x1_0000_0000 * item[12] + 0x100_0000_0000 * item[13]
                + 0x1_0000_0000_0000 * item[14] + 0x100_0000_0000_0000 * item[15]
            &&& taken.key == item[16] + 0x100 * item[17] + 0x1_0000 * item[18]
                + 0x100_0000 * item[19] + 0x1_0000_0000 * item[20] + 0x100_0000_0000 * item[21]
                + 0x1_0000_0000_0000 * item[22] + 0x100_0000_0000_0000 * item[23]
            &&& taken.pid == item[24] + 0x100 * item[25] + 0x1_0000 * item[26] + 0x100_0000 * item[27]
            &&& taken.tid == item[28] + 0x100 * item[29] + 0x1_0000 * item[30] + 0x100_0000 * item[31]
            &&& taken.event_type == item[32]
            &&& taken.comm@ == crate::trace::utf8_lossy(item.subrange(36, 36 + len))
            &&& vstd::utf8::valid_utf8(item.subrange(36, 36 + len)) ==> taken.comm@
                == vstd::utf8::decode_utf8(item.subrange(36, 36 + len))
        }),
{
    let taken = after.last();
    let ev = choose|ev: event::Event| event::record_holds(item, ev) && taken.is_owned_form_of(ev);
    event::law_fields_stand_at_fixed_places(item, ev);
    assert forall|i: int| 0 <= i < len implies #[trigger] ev.comm@[i] != 0 by {
        assert(item[36 + i] != 0);
    }
    crate::trace::law_owned_form_keeps_every_field(taken, ev, len);
    assert(ev.comm@.take(len) =~= item.subrange(36, 36 + len));
    assert forall|k: int| 0 <= k < before.len() implies #[trigger] after[k] == before[k] by {
        assert(after.drop_last()[k] == before[k]);
    }
}

/// An item of any other length is dropped.
pub proof fn law_other_items_are_dropped(
    item: Seq<u8>,
    before: Seq<TraceEvent>,
    after: Seq<TraceEvent>,
)
    requires
        took_item(item, before, after),
        item.len() != 56,
    ensures
        after == before,
{
}

} // verus!
