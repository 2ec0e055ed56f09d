//! The order in which a batch is handed out.

use crate::model;
use crate::model::{chronological, insert_by_time, RawEventView};
use crate::notification::Event;
use crate::processor::RawEvent;
use vstd::prelude::*;

verus! {

/// Whether two notifications are reported against the same path.
pub fn same_subject(a: &Event, b: &Event) -> (r: bool)
    ensures
        r == (a@.subject() == b@.subject()),
{
    let n = a.paths.len();
    let m = b.paths.len();
    if n == 0 || m == 0 {
        n == 0 && m == 0
    } else {
        assert(a@.paths.last() == a.paths[n - 1]@);
        assert(b@.paths.last() == b.paths[m - 1]@);
        a.paths[n - 1] == b.paths[m - 1]
    }
}

/// Whether `a` has to stand before `b`.
pub fn comes_before(a: &RawEvent, b: &RawEvent) -> (r: bool)
    ensures
        r == model::comes_before(a@, b@),
{
    a.time < b.time && !same_subject(&a.event, &b.event)
}

/// Where `e` goes among events that are in order already.
fn insertion_point(sorted: &Vec<RawEvent>, e: &RawEvent) -> (pos: usize)
    ensures
        pos <= sorted.len(),
        insert_by_time(sorted.deep_view(), e@) == sorted.deep_view().insert(pos as int, e@),
{
    let ghost all = sorted.deep_view();
    let mut pos: usize = sorted.len();
    assert(all.take(pos as int) =~= all);
    assert(all.skip(pos as int) =~= Seq::<RawEventView>::empty());
    assert(insert_by_time(all, e@) =~= insert_by_time(all.take(pos as int), e@) + all.skip(
        pos as int,
    ));
    while pos > 0 && comes_before(e, &sorted[pos - 1])
        invariant
            pos <= sorted.len(),
            all == sorted.deep_view(),
            insert_by_time(all, e@) == insert_by_time(all.take(pos as int), e@) + all.skip(
                pos as int,
            ),
        decreases pos,
    {
        let ghost head = all.take(pos as int);
        assert(head.last() == all[pos - 1]);
        assert(head.drop_last() =~= all.take(pos - 1));
        assert(insert_by_time(head, e@) == insert_by_time(all.take(pos - 1), e@).push(
            all[pos - 1],
        ));
        assert(insert_by_time(all.take(pos - 1), e@).push(all[pos - 1]) + all.skip(pos as int)
            =~= insert_by_time(all.take(pos - 1), e@) + all.skip(pos - 1));
        pos -= 1;
    }
    let ghost head = all.take(pos as int);
    assert(insert_by_time(head, e@) == head.push(e@)) by {
        if pos > 0 {
            assert(head.last() == all[pos - 1]);
        }
    }
    assert(head.push(e@) + all.skip(pos as int) =~= all.insert(pos as int, e@));
    pos
}

/// Puts a batch into the order in which it is handed out.
pub fn sort_chronological(batch: Vec<RawEvent>) -> (sorted: Vec<RawEvent>)
    ensures
        sorted.deep_view() == chronological(batch.deep_view()),
{
    let ghost all = batch.deep_view();
    let mut sorted: Vec<RawEvent> = Vec::new();
    assert(all.take(0) =~= Seq::<RawEventView>::empty());
    assert(sorted.deep_view() =~= chronological(all.take(0)));
    for e in it: batch
        invariant
            it.seq() == batch@,
            all == batch.deep_view(),
            sorted.deep_view() == chronological(all.take(it.index() as int)),
    {
        let ghost n = it.index() as int;
        let ghost before = sorted.deep_view();
        assert(e@ == all[n]);
        assert(all.take(n + 1).drop_last() =~= all.take(n));
        assert(all.take(n + 1).last() == all[n]);
        let pos = insertion_point(&sorted, &e);
        sorted.insert(pos, e);
        assert(sorted.deep_view() =~= before.insert(pos as int, all[n]));
    }
    assert(all.take(all.len() as int) =~= all);
    sorted
}

} // verus!
