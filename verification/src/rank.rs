//! Ordering blocked intervals from the longest to the shortest.

use vstd::prelude::*;

use crate::event::EVENT_SCHED_BLOCK;
use crate::trace::TraceEvent;

verus! {

/// The `i`-th event ranks before the `j`-th: it lasted longer, or as long and
/// was recorded earlier.
pub open spec fn slower(events: Seq<TraceEvent>, i: int, j: int) -> bool {
    events[i].duration_ns > events[j].duration_ns || (events[i].duration_ns
        == events[j].duration_ns && i < j)
}

/// `order` runs from the slowest event to the least slow.
pub open spec fn ranked(events: Seq<TraceEvent>, order: Seq<usize>) -> bool {
    forall|p: int, q: int|
        0 <= p < q < order.len() ==> #[trigger] slower(
            events,
            order[p] as int,
            order[q] as int,
        )
}

/// Every index in `order` is one into `events`.
pub open spec fn in_range(events: Seq<TraceEvent>, order: Seq<usize>) -> bool {
    forall|p: int| 0 <= p < order.len() ==> (#[trigger] order[p]) < events.len()
}

/// `order` holds the index of every blocked interval once, longest first, and
/// the earlier recorded of two equally long ones first.
pub open spec fn is_stall_order(events: Seq<TraceEvent>, order: Seq<int>) -> bool {
    &&& forall|p: int, q: int|
        0 <= p < q < order.len() ==> #[trigger] slower(events, order[p], order[q])
    &&& forall|i: int|
        (#[trigger] order.contains(i)) <==> 0 <= i < events.len() && events[i].event_type
            == EVENT_SCHED_BLOCK
}

/// The indices of the blocked intervals, longest first.
pub open spec fn stall_order(events: Seq<TraceEvent>) -> Seq<int> {
    choose|order: Seq<int>| is_stall_order(events, order)
}

/// `order` as mathematical integers.
pub open spec fn as_ints(order: Seq<usize>) -> Seq<int> {
    order.map_values(|i: usize| i as int)
}

/// Merges two ranked lists without common elements.
fn merge(events: &Vec<TraceEvent>, a: &Vec<usize>, b: &Vec<usize>) -> (merged: Vec<usize>)
    requires
        in_range(events@, a@),
        in_range(events@, b@),
        ranked(events@, a@),
        ranked(events@, b@),
        forall|x: usize| a@.contains(x) ==> !b@.contains(x),
    ensures
        in_range(events@, merged@),
        ranked(events@, merged@),
        forall|x: usize| #[trigger] merged@.contains(x) <==> a@.contains(x) || b@.contains(x),
{
    let mut merged: Vec<usize> = Vec::new();
    let mut i: usize = 0;
    let mut j: usize = 0;
    while i < a.len() || j < b.len()
        invariant
            i <= a.len(),
            j <= b.len(),
            in_range(events@, a@),
            in_range(events@, b@),
            in_range(events@, merged@),
            ranked(events@, a@),
            ranked(events@, b@),
            ranked(events@, merged@),
            forall|x: usize| a@.contains(x) ==> !b@.contains(x),
            forall|p: int, q: int|
                0 <= p < merged.len() && i <= q < a.len() ==> #[trigger] slower(
                    events@,
                    merged@[p] as int,
                    a@[q] as int,
                ),
            forall|p: int, q: int|
                0 <= p < merged.len() && j <= q < b.len() ==> #[trigger] slower(
                    events@,
                    merged@[p] as int,
                    b@[q] as int,
                ),
            forall|x: usize| #[trigger]
                merged@.contains(x) <==> a@.take(i as int).contains(x) || b@.take(
                    j as int,
                ).contains(x),
        decreases a.len() - i + b.len() - j,
    {
        let take_a = if i >= a.len() {
            false
        } else if j >= b.len() {
            true
        } else {
            let x = a[i];
            let y = b[j];
            assert(a@.contains(x) && b@.contains(y));
            events[x].duration_ns > events[y].duration_ns || (events[x].duration_ns
                == events[y].duration_ns && x < y)
        };
        let ghost before = merged@;
        if take_a {
            let x = a[i];
            merged.push(x);
            proof {
                assert forall|q: int| j <= q < b.len() implies #[trigger] slower(
                    events@,
                    x as int,
                    b@[q] as int,
                ) by {
                    if q > j {
                        assert(slower(events@, b@[j as int] as int, b@[q] as int));
                    }
                }
                lemma_pushed(before, a@, i as int, b@.take(j as int), x);
            }
            i = i + 1;
        } else {
            let y = b[j];
            merged.push(y);
            proof {
                assert forall|q: int| i <= q < a.len() implies #[trigger] slower(
                    events@,
                    y as int,
                    a@[q] as int,
                ) by {
                    assert(a@.contains(a@[i as int]));
                    assert(slower(events@, y as int, a@[i as int] as int));
                    if q > i {
                        assert(slower(events@, a@[i as int] as int, a@[q] as int));
                    }
                }
                lemma_pushed(before, b@, j as int, a@.take(i as int), y);
            }
            j = j + 1;
        }
    }
    assert(a@.take(i as int) =~= a@);
    assert(b@.take(j as int) =~= b@);
    merged
}

/// Moving one element over keeps account of what has been moved.
proof fn lemma_pushed(merged: Seq<usize>, a: Seq<usize>, i: int, rest: Seq<usize>, x: usize)
    requires
        0 <= i < a.len(),
        x == a[i],
        forall|y: usize| #[trigger]
            merged.contains(y) <==> a.take(i).contains(y) || rest.contains(y),
    ensures
        forall|y: usize| #[trigger]
            merged.push(x).contains(y) <==> a.take(i + 1).contains(y) || rest.contains(y),
{
    assert(a.take(i + 1) =~= a.take(i).push(x));
    assert forall|y: usize| #[trigger]
        merged.push(x).contains(y) <==> a.take(i + 1).contains(y) || rest.contains(y) by {
        lemma_push_contains(merged, x, y);
        lemma_push_contains(a.take(i), x, y);
        assert(merged.contains(y) <==> a.take(i).contains(y) || rest.contains(y));
    }
}

proof fn lemma_push_contains(s: Seq<usize>, x: usize, y: usize)
    ensures
        s.push(x).contains(y) <==> s.contains(y) || y == x,
{
    if s.contains(y) {
        let k = choose|k: int| 0 <= k < s.len() && s[k] == y;
        assert(s.push(x)[k] == y);
    }
    if y == x {
        assert(s.push(x)[s.len() as int] == y);
    }
}

/// The part of `list` from `lo` up to `hi`, ranked. The sort is stable: `list`
/// is in the order of recording, and equally slow events stay in it.
fn rank_range(events: &Vec<TraceEvent>, list: &Vec<usize>, lo: usize, hi: usize) -> (order: Vec<
    usize,
>)
    requires
        lo <= hi <= list.len(),
        in_range(events@, list@),
        forall|p: int, q: int| 0 <= p < q < list.len() ==> list@[p] < list@[q],
    ensures
        in_range(events@, order@),
        ranked(events@, order@),
        forall|x: usize|
            order@.contains(x) <==> list@.subrange(lo as int, hi as int).contains(x),
    decreases hi - lo,
{
    if hi - lo <= 1 {
        let mut order: Vec<usize> = Vec::new();
        if lo < hi {
            order.push(list[lo]);
        }
        assert(order@ =~= list@.subrange(lo as int, hi as int));
        order
    } else {
        let mid: usize = lo + (hi - lo) / 2;
        let left = rank_range(events, list, lo, mid);
        let right = rank_range(events, list, mid, hi);
        let ghost l = list@.subrange(lo as int, mid as int);
        let ghost r = list@.subrange(mid as int, hi as int);
        let ghost whole = list@.subrange(lo as int, hi as int);
        proof {
            assert forall|x: usize| left@.contains(x) implies !right@.contains(x) by {
                assert(l.contains(x));
                if r.contains(x) {
                    let p = choose|p: int| 0 <= p < l.len() && l[p] == x;
                    let q = choose|q: int| 0 <= q < r.len() && r[q] == x;
                    assert(list@[lo + p] < list@[mid + q]);
                }
            }
            assert(whole =~= l + r);
            assert forall|x: usize| whole.contains(x) <==> l.contains(x) || r.contains(x) by {
                if l.contains(x) {
                    let p = choose|p: int| 0 <= p < l.len() && l[p] == x;
                    assert((l + r)[p] == x);
                }
                if r.contains(x) {
                    let q = choose|q: int| 0 <= q < r.len() && r[q] == x;
                    assert((l + r)[l.len() + q] == x);
                }
            }
        }
        merge(events, &left, &right)
    }
}

/// Two rankings of the same intervals are the same.
proof fn lemma_stall_order_unique(events: Seq<TraceEvent>, a: Seq<int>, b: Seq<int>)
    requires
        is_stall_order(events, a),
        is_stall_order(events, b),
    ensures
        a == b,
{
    lemma_common_prefix(events, a, b, a.len() as int);
    lemma_common_prefix(events, b, a, b.len() as int);
    assert(a =~= b);
}

proof fn lemma_common_prefix(events: Seq<TraceEvent>, a: Seq<int>, b: Seq<int>, n: int)
    requires
        is_stall_order(events, a),
        is_stall_order(events, b),
        0 <= n <= a.len(),
    ensures
        n <= b.len(),
        forall|k: int| 0 <= k < n ==> a[k] == b[k],
    decreases n,
{
    if n > 0 {
        let m = n - 1;
        lemma_common_prefix(events, a, b, m);
        // a[m] stands in b, behind the common prefix.
        assert(a.contains(a[m]));
        assert(b.contains(a[m]));
        let q = choose|q: int| 0 <= q < b.len() && b[q] == a[m];
        if q < m {
            assert(slower(events, a[q], a[m]));
        }
        if q > m {
            // Then b[m] ranks before a[m], and stands in a behind it.
            assert(b.contains(b[m]));
            assert(a.contains(b[m]));
            let p = choose|p: int| 0 <= p < a.len() && a[p] == b[m];
            assert(slower(events, b[m], b[q]));
            if p < m {
                assert(slower(events, b[p], b[m]));
            } else if p > m {
                assert(slower(events, a[m], a[p]));
            }
        }
    }
}

/// How many of the first `n` entries of `order` last at least `duration_ns`,
/// given that they come first.
proof fn lemma_insertion_point(
    events: Seq<TraceEvent>,
    order: Seq<int>,
    duration_ns: u64,
    n: int,
) -> (k: int)
    requires
        0 <= n <= order.len(),
        forall|p: int, q: int|
            0 <= p < q < order.len() ==> #[trigger] slower(events, order[p], order[q]),
    ensures
        0 <= k <= n,
        forall|p: int| 0 <= p < k ==> events[#[trigger] order[p]].duration_ns >= duration_ns,
        forall|p: int| k <= p < n ==> events[#[trigger] order[p]].duration_ns < duration_ns,
    decreases n,
{
    if n == 0 {
        0
    } else if events[order[n - 1]].duration_ns >= duration_ns {
        assert forall|p: int| 0 <= p < n implies events[#[trigger] order[p]].duration_ns
            >= duration_ns by {
            if p < n - 1 {
                assert(slower(events, order[p], order[n - 1]));
            }
        }
        n
    } else {
        lemma_insertion_point(events, order, duration_ns, n - 1)
    }
}

proof fn lemma_stall_order_exists(events: Seq<TraceEvent>) -> (order: Seq<int>)
    ensures
        is_stall_order(events, order),
    decreases events.len(),
{
    if events.len() == 0 {
        Seq::empty()
    } else {
        let n = events.len() - 1;
        let shorter = events.drop_last();
        let prev = lemma_stall_order_exists(shorter);
        assert forall|p: int| 0 <= p < prev.len() implies 0 <= #[trigger] prev[p] < n
            && events[prev[p]].event_type == EVENT_SCHED_BLOCK by {
            assert(prev.contains(prev[p]));
        }
        assert forall|p: int, q: int| 0 <= p < q < prev.len() implies #[trigger] slower(
            events,
            prev[p],
            prev[q],
        ) by {
            assert(slower(shorter, prev[p], prev[q]));
        }
        if events[n].event_type != EVENT_SCHED_BLOCK {
            assert forall|i: int|
                (#[trigger] prev.contains(i)) <==> 0 <= i < events.len() && events[i].event_type
                    == EVENT_SCHED_BLOCK by {
                if 0 <= i < n {
                    assert(shorter[i] == events[i]);
                }
            }
            prev
        } else {
            let k = lemma_insertion_point(
                events,
                prev,
                events[n].duration_ns,
                prev.len() as int,
            );
            let order = prev.insert(k, n);
            assert forall|p: int, q: int| 0 <= p < q < order.len() implies #[trigger] slower(
                events,
                order[p],
                order[q],
            ) by {
                let pp = if p < k { p } else { p - 1 };
                let qq = if q < k { q } else { q - 1 };
                if p != k && q != k {
                    assert(order[p] == prev[pp] && order[q] == prev[qq]);
                    assert(slower(events, prev[pp], prev[qq]));
                } else if p == k {
                    assert(order[q] == prev[qq]);
                } else {
                    assert(order[p] == prev[pp]);
                }
            }
            assert forall|i: int|
                (#[trigger] order.contains(i)) <==> 0 <= i < events.len() && events[i].event_type
                    == EVENT_SCHED_BLOCK by {
                if order.contains(i) {
                    let p = choose|p: int| 0 <= p < order.len() && order[p] == i;
                    if p < k {
                        assert(order[p] == prev[p]);
                    } else if p > k {
                        assert(order[p] == prev[p - 1]);
                    }
                }
                if 0 <= i < events.len() && events[i].event_type == EVENT_SCHED_BLOCK {
                    if i == n {
                        assert(order[k] == n);
                    } else {
                        assert(shorter[i] == events[i]);
                        assert(prev.contains(i));
                        let p = choose|p: int| 0 <= p < prev.len() && prev[p] == i;
                        assert(order[if p < k { p } else { p + 1 }] == i);
                    }
                }
            }
            order
        }
    }
}

/// Every trace has one ranking of its blocked intervals, and it runs from the
/// longest to the shortest.
pub proof fn law_longest_first(events: Seq<TraceEvent>)
    ensures
        is_stall_order(events, stall_order(events)),
        forall|order: Seq<int>| is_stall_order(events, order) ==> order == stall_order(events),
        forall|p: int, q: int|
            0 <= p < q < stall_order(events).len() ==> events[#[trigger] stall_order(
                events,
            )[p]].duration_ns >= events[#[trigger] stall_order(events)[q]].duration_ns,
{
    let order = lemma_stall_order_exists(events);
    assert(is_stall_order(events, stall_order(events)));
    assert forall|other: Seq<int>| is_stall_order(events, other) implies other == stall_order(
        events,
    ) by {
        lemma_stall_order_unique(events, other, stall_order(events));
    }
    assert forall|p: int, q: int| 0 <= p < q < stall_order(events).len() implies events[
        #[trigger] stall_order(events)[p]].duration_ns >= events[#[trigger] stall_order(
        events,
    )[q]].duration_ns by {
        assert(slower(events, stall_order(events)[p], stall_order(events)[q]));
    }
}

/// Of the first `k` blocked intervals in rank none is shorter than one that is
/// left out.
pub proof fn law_left_out_are_no_longer(events: Seq<TraceEvent>, k: int, i: int)
    requires
        0 <= k <= stall_order(events).len(),
        0 <= i < events.len(),
        events[i].event_type == EVENT_SCHED_BLOCK,
        !stall_order(events).take(k).contains(i),
    ensures
        forall|p: int|
            0 <= p < k ==> events[#[trigger] stall_order(events)[p]].duration_ns
                >= events[i].duration_ns,
{
    law_longest_first(events);
    let order = stall_order(events);
    assert(order.contains(i));
    let q = choose|q: int| 0 <= q < order.len() && order[q] == i;
    if q < k {
        assert(order.take(k)[q] == i);
    }
}

/// The indices in `list` ranked, where `list` holds those of the blocked
/// intervals in the order of recording.
pub fn rank_stalls(events: &Vec<TraceEvent>, list: &Vec<usize>) -> (order: Vec<usize>)
    requires
        crate::matching::lists(events@, EVENT_SCHED_BLOCK, list@),
    ensures
        as_ints(order@) == stall_order(events@),
        is_stall_order(events@, as_ints(order@)),
{
    let order = rank_range(events, list, 0, list.len());
    proof {
        let ints = as_ints(order@);
        assert(list@.subrange(0, list@.len() as int) =~= list@);
        assert forall|p: int, q: int| 0 <= p < q < ints.len() implies #[trigger] slower(
            events@,
            ints[p],
            ints[q],
        ) by {
            assert(slower(events@, order@[p] as int, order@[q] as int));
        }
        assert forall|i: int|
            (#[trigger] ints.contains(i)) <==> 0 <= i < events@.len() && events@[i].event_type
                == EVENT_SCHED_BLOCK by {
            if ints.contains(i) {
                let k = choose|k: int| 0 <= k < ints.len() && ints[k] == i;
                assert(order@.contains(order@[k]));
                assert(list@.contains(order@[k]));
            }
            if 0 <= i < events@.len() && events@[i].event_type == EVENT_SCHED_BLOCK {
                let p = choose|p: int| 0 <= p < list@.len() && list@[p] == i;
                assert(list@.contains(list@[p]));
                assert(order@.contains(list@[p]));
                let k = choose|k: int| 0 <= k < order@.len() && order@[k] == list@[p];
                assert(ints[k] == i);
            }
        }
        assert(is_stall_order(events@, ints));
        lemma_stall_order_unique(events@, ints, stall_order(events@));
    }
    order
}

/// The ranking, in terms of the events alone: it holds every blocked interval of the
/// trace once and nothing else; of two of them the longer one comes first, and of
/// two equally long ones the one recorded first.
pub proof fn law_ranking_is_of_all_blocked_intervals(events: Seq<TraceEvent>)
    ensures
        ({
            let order = stall_order(events);
            &&& order.no_duplicates()
            &&& forall|k: int|
                0 <= k < order.len() ==> 0 <= #[trigger] order[k] < events.len()
                    && events[order[k]].event_type == 0
            &&& forall|i: int|
                0 <= i < events.len() && (#[trigger] events[i]).event_type == 0 ==> order.contains(
                    i,
                )
            &&& forall|p: int, q: int|
                0 <= p < q < order.len() ==> events[#[trigger] order[p]].duration_ns
                    > events[#[trigger] order[q]].duration_ns || (events[order[p]].duration_ns
                    == events[order[q]].duration_ns && order[p] < order[q])
            &&& order.len() == Set::new(
                |i: int| 0 <= i < events.len() && events[i].event_type == 0,
            ).len()
        }),
{
    law_longest_first(events);
    let order = stall_order(events);
    assert forall|p: int, q: int| 0 <= p < q < order.len() implies events[
        #[trigger] order[p]].duration_ns > events[#[trigger] order[q]].duration_ns || (
    events[order[p]].duration_ns == events[order[q]].duration_ns && order[p] < order[q]) by {
        assert(slower(events, order[p], order[q]));
    }
    assert forall|k: int| 0 <= k < order.len() implies 0 <= #[trigger] order[k] < events.len()
        && events[order[k]].event_type == 0 by {
        assert(order.contains(order[k]));
    }
    assert forall|p: int, q: int| 0 <= p < order.len() && 0 <= q < order.len() && p != q implies #[trigger] order[p]
        != #[trigger] order[q] by {
        if p < q {
            assert(slower(events, order[p], order[q]));
        } else {
            assert(slower(events, order[q], order[p]));
        }
    }
    assert(order.no_duplicates());
    order.unique_seq_to_set();
    assert(order.to_set() =~= Set::new(
        |i: int| 0 <= i < events.len() && events[i].event_type == 0,
    ));
}

} // verus!
