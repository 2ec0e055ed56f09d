//! What holds of the order in which a batch is handed out.

use crate::model::{chronological, comes_before, insert_by_time, RawEventView};
use vstd::prelude::*;

verus! {

/// The events that are reported against `subject`.
pub open spec fn reported_against(subject: Option<Seq<char>>) -> spec_fn(RawEventView) -> bool {
    |e: RawEventView| e.event.subject() == subject
}

/// Of two events of one subject, the one that was queued first is not the
/// younger one.
pub open spec fn chronological_per_subject(events: Seq<RawEventView>) -> bool {
    forall|a: int, b: int|
        0 <= a < b < events.len() && (#[trigger] events[a]).event.subject() == (
        #[trigger] events[b]).event.subject() ==> events[a].time <= events[b].time
}

/// No event stands before an older one.
pub open spec fn sorted_by_time(events: Seq<RawEventView>) -> bool {
    forall|i: int, j: int|
        0 <= i < j < events.len() ==> (#[trigger] events[i]).time <= (#[trigger] events[j]).time
}

/// Putting an event into a batch adds that event and nothing else.
pub proof fn lemma_insert_is_permutation(sorted: Seq<RawEventView>, e: RawEventView)
    ensures
        insert_by_time(sorted, e).to_multiset() == sorted.to_multiset().insert(e),
        insert_by_time(sorted, e).len() == sorted.len() + 1,
    decreases sorted.len(),
{
    broadcast use vstd::seq_lib::to_multiset_build;

    if sorted.len() > 0 && comes_before(e, sorted.last()) {
        let front = sorted.drop_last();
        lemma_insert_is_permutation(front, e);
        assert(front.push(sorted.last()) =~= sorted);
        assert(insert_by_time(sorted, e).to_multiset() =~= sorted.to_multiset().insert(e));
    }
}

/// A batch holds the events that were taken out, each as often as it was
/// taken out: ordering only moves them.
pub proof fn lemma_order_is_permutation(events: Seq<RawEventView>)
    ensures
        chronological(events).to_multiset() == events.to_multiset(),
        chronological(events).len() == events.len(),
    decreases events.len(),
{
    broadcast use vstd::seq_lib::to_multiset_build;

    if events.len() > 0 {
        let front = events.drop_last();
        lemma_order_is_permutation(front);
        lemma_insert_is_permutation(chronological(front), events.last());
        assert(front.push(events.last()) =~= events);
    }
}

/// Putting an event into a batch leaves the events of every subject in
/// their order, the new event last among those of its own subject.
pub proof fn lemma_insert_keeps_subject_order(
    sorted: Seq<RawEventView>,
    e: RawEventView,
    subject: Option<Seq<char>>,
)
    ensures
        insert_by_time(sorted, e).filter(reported_against(subject)) == sorted.push(e).filter(
            reported_against(subject),
        ),
    decreases sorted.len(),
{
    let p = reported_against(subject);
    if sorted.len() > 0 && comes_before(e, sorted.last()) {
        let front = sorted.drop_last();
        let last = sorted.last();
        lemma_insert_keeps_subject_order(front, e, subject);
        assert(front.push(last) =~= sorted);
        insert_by_time(front, e).lemma_filter_push(last, p);
        front.lemma_filter_push(e, p);
        front.lemma_filter_push(last, p);
        sorted.lemma_filter_push(e, p);
        front.filter(p).lemma_filter_push(e, p);
        // `e` and `last` are of different subjects: at most one of them is kept
        assert(!(p(e) && p(last)));
    }
}

/// The events of one subject leave in the order in which they were queued,
/// whatever their times are.
pub proof fn lemma_order_keeps_subject_order(
    events: Seq<RawEventView>,
    subject: Option<Seq<char>>,
)
    ensures
        chronological(events).filter(reported_against(subject)) == events.filter(
            reported_against(subject),
        ),
    decreases events.len(),
{
    let p = reported_against(subject);
    if events.len() > 0 {
        let front = events.drop_last();
        let last = events.last();
        lemma_order_keeps_subject_order(front, subject);
        lemma_insert_keeps_subject_order(chronological(front), last, subject);
        assert(front.push(last) =~= events);
        chronological(front).lemma_filter_push(last, p);
        front.lemma_filter_push(last, p);
    }
}

/// Every event of a batch into which `e` was put is `e` or was there before.
proof fn lemma_insert_members(sorted: Seq<RawEventView>, e: RawEventView, i: int)
    requires
        0 <= i < insert_by_time(sorted, e).len(),
    ensures
        insert_by_time(sorted, e)[i] == e || sorted.contains(insert_by_time(sorted, e)[i]),
    decreases sorted.len(),
{
    lemma_insert_is_permutation(sorted, e);
    if sorted.len() > 0 && comes_before(e, sorted.last()) {
        let front = sorted.drop_last();
        lemma_insert_is_permutation(front, e);
        if i < insert_by_time(front, e).len() {
            lemma_insert_members(front, e, i);
            let x = insert_by_time(front, e)[i];
            if x != e {
                let k = choose|k: int| 0 <= k < front.len() && front[k] == x;
                assert(sorted[k] == x);
            }
        } else {
            assert(sorted[sorted.len() - 1] == sorted.last());
        }
    } else {
        if i < sorted.len() {
            assert(sorted[i] == insert_by_time(sorted, e)[i]);
        }
    }
}

/// Every event of a batch was taken out.
proof fn lemma_order_members(events: Seq<RawEventView>, i: int)
    requires
        0 <= i < chronological(events).len(),
    ensures
        events.contains(chronological(events)[i]),
    decreases events.len(),
{
    if events.len() > 0 {
        let front = events.drop_last();
        let last = events.last();
        lemma_insert_members(chronological(front), last, i);
        let x = chronological(events)[i];
        if x == last {
            assert(events[events.len() - 1] == x);
        } else {
            let k = choose|k: int|
                0 <= k < chronological(front).len() && chronological(front)[k] == x;
            lemma_order_members(front, k);
            let m = choose|m: int| 0 <= m < front.len() && front[m] == x;
            assert(events[m] == x);
        }
    }
}

/// An event put into a batch that is sorted by time leaves it sorted, where
/// no event of its own subject in the batch is younger than it.
proof fn lemma_insert_sorted(sorted: Seq<RawEventView>, e: RawEventView)
    requires
        sorted_by_time(sorted),
        forall|k: int|
            0 <= k < sorted.len() && (#[trigger] sorted[k]).event.subject() == e.event.subject()
                ==> sorted[k].time <= e.time,
    ensures
        sorted_by_time(insert_by_time(sorted, e)),
    decreases sorted.len(),
{
    let out = insert_by_time(sorted, e);
    lemma_insert_is_permutation(sorted, e);
    if sorted.len() > 0 && comes_before(e, sorted.last()) {
        let front = sorted.drop_last();
        let last = sorted.last();
        assert forall|k: int|
            0 <= k < front.len() && (#[trigger] front[k]).event.subject() == e.event.subject()
            implies front[k].time <= e.time by {
            assert(front[k] == sorted[k]);
        }
        assert(sorted_by_time(front)) by {
            assert forall|i: int, j: int| 0 <= i < j < front.len() implies (#[trigger] front[i]).time
                <= (#[trigger] front[j]).time by {
                assert(front[i] == sorted[i] && front[j] == sorted[j]);
            }
        }
        lemma_insert_sorted(front, e);
        lemma_insert_is_permutation(front, e);
        let inner = insert_by_time(front, e);
        assert forall|i: int, j: int| 0 <= i < j < out.len() implies (#[trigger] out[i]).time <= (
        #[trigger] out[j]).time by {
            if j < inner.len() {
                assert(out[i] == inner[i] && out[j] == inner[j]);
            } else {
                assert(out[j] == last);
                assert(out[i] == inner[i]);
                lemma_insert_members(front, e, i);
                if inner[i] != e {
                    let k = choose|k: int| 0 <= k < front.len() && front[k] == inner[i];
                    assert(sorted[k] == inner[i]);
                    assert(sorted[sorted.len() - 1] == last);
                }
            }
        }
    } else {
        assert forall|i: int, j: int| 0 <= i < j < out.len() implies (#[trigger] out[i]).time <= (
        #[trigger] out[j]).time by {
            if j < sorted.len() {
                assert(out[i] == sorted[i] && out[j] == sorted[j]);
            } else {
                assert(out[j] == e);
                assert(out[i] == sorted[i]);
                if sorted.len() > 0 {
                    let last = sorted[sorted.len() - 1];
                    assert(last == sorted.last());
                    if last.event.subject() != e.event.subject() {
                        assert(last.time <= e.time);
                    }
                }
            }
        }
    }
}

/// Where the events of each subject were queued in the order of their
/// times, the whole batch is in the order of the times. So of two events of
/// different subjects the older one leaves first.
pub proof fn lemma_order_is_chronological(events: Seq<RawEventView>)
    requires
        chronological_per_subject(events),
    ensures
        sorted_by_time(chronological(events)),
    decreases events.len(),
{
    if events.len() > 0 {
        let front = events.drop_last();
        let last = events.last();
        assert(chronological_per_subject(front)) by {
            assert forall|a: int, b: int|
                0 <= a < b < front.len() && (#[trigger] front[a]).event.subject() == (
                #[trigger] front[b]).event.subject() implies front[a].time <= front[b].time by {
                assert(front[a] == events[a] && front[b] == events[b]);
            }
        }
        lemma_order_is_chronological(front);
        let sorted = chronological(front);
        assert forall|k: int|
            0 <= k < sorted.len() && (#[trigger] sorted[k]).event.subject()
                == last.event.subject() implies sorted[k].time <= last.time by {
            lemma_order_members(front, k);
            let m = choose|m: int| 0 <= m < front.len() && front[m] == sorted[k];
            assert(events[m] == sorted[k]);
            assert(events[events.len() - 1] == last);
        }
        lemma_insert_sorted(sorted, last);
    }
}

/// Of two neighbours of different subjects the first is not the younger
/// one.
pub open spec fn neighbours_in_order(events: Seq<RawEventView>) -> bool {
    forall|k: int|
        0 <= k && k + 1 < events.len() ==> !comes_before(#[trigger] events[k + 1], events[k])
}

/// In every batch, whatever the times are, of two neighbours of different
/// subjects the first is not the younger one.
pub proof fn lemma_neighbours_in_order(events: Seq<RawEventView>)
    ensures
        neighbours_in_order(chronological(events)),
    decreases events.len(),
{
    if events.len() > 0 {
        let front = events.drop_last();
        lemma_neighbours_in_order(front);
        let out = chronological(events);
        assert forall|k: int| 0 <= k && k + 1 < out.len() implies !comes_before(
            #[trigger] out[k + 1],
            out[k],
        ) by {
            lemma_insert_neighbours(chronological(front), events.last(), k);
        }
    }
}

/// Neighbours stay in order when an event is put between them.
proof fn lemma_insert_neighbours(sorted: Seq<RawEventView>, e: RawEventView, i: int)
    requires
        neighbours_in_order(sorted),
        0 <= i,
        i + 1 < insert_by_time(sorted, e).len(),
    ensures
        !comes_before(insert_by_time(sorted, e)[i + 1], insert_by_time(sorted, e)[i]),
    decreases sorted.len(),
{
    lemma_insert_is_permutation(sorted, e);
    let out = insert_by_time(sorted, e);
    if sorted.len() > 0 && comes_before(e, sorted.last()) {
        let front = sorted.drop_last();
        let last = sorted.last();
        lemma_insert_is_permutation(front, e);
        let inner = insert_by_time(front, e);
        assert forall|k: int| 0 <= k && k + 1 < front.len() implies !comes_before(
            #[trigger] front[k + 1],
            front[k],
        ) by {
            assert(front[k + 1] == sorted[k + 1] && front[k] == sorted[k]);
        }
        if i + 1 < inner.len() {
            lemma_insert_neighbours(front, e, i);
            assert(out[i] == inner[i] && out[i + 1] == inner[i + 1]);
        } else {
            // the neighbours are the last of `inner` and `last`
            assert(out[i + 1] == last);
            assert(out[i] == inner[i]);
            lemma_insert_last(front, e);
            if inner[i] != e {
                assert(front.len() > 0);
                assert(inner[i] == front[front.len() - 1]);
                assert(front[front.len() - 1] == sorted[sorted.len() - 2]);
                assert(last == sorted[(sorted.len() - 2) + 1]);
            }
        }
    } else {
        if i + 1 < sorted.len() {
            assert(out[i] == sorted[i] && out[i + 1] == sorted[i + 1]);
        } else {
            assert(out[i + 1] == e);
            assert(out[i] == sorted[sorted.len() - 1]);
        }
    }
}

/// The last event of a batch into which `e` was put is `e` or the last one
/// that was there before.
proof fn lemma_insert_last(sorted: Seq<RawEventView>, e: RawEventView)
    ensures
        insert_by_time(sorted, e).len() == sorted.len() + 1,
        insert_by_time(sorted, e).last() == e || (sorted.len() > 0 && insert_by_time(
            sorted,
            e,
        ).last() == sorted.last()),
{
    lemma_insert_is_permutation(sorted, e);
    if sorted.len() > 0 && comes_before(e, sorted.last()) {
        lemma_insert_is_permutation(sorted.drop_last(), e);
    }
}

} // verus!
