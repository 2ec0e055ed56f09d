use notifykit::notification::{DataChange, Event, EventKind, ModifyKind};
use notifykit::order::{comes_before, same_subject, sort_chronological};
use notifykit::processor::RawEvent;

fn at(paths: &[&str], time: u64) -> RawEvent {
    let mut event = Event::new(EventKind::Modify(ModifyKind::Data(DataChange::Any)));
    for p in paths {
        event = event.add_path(p.to_string());
    }
    RawEvent::new(event, time)
}

fn order(batch: Vec<RawEvent>) -> Vec<(Vec<String>, u64)> {
    sort_chronological(batch).into_iter().map(|e| (e.event.paths, e.time)).collect()
}

fn expect(list: &[(&[&str], u64)]) -> Vec<(Vec<String>, u64)> {
    list.iter().map(|(p, t)| (p.iter().map(|s| s.to_string()).collect(), *t)).collect()
}

#[test]
fn subject_is_the_last_path() {
    assert!(same_subject(&at(&["/a"], 0).event, &at(&["/a"], 9).event));
    assert!(same_subject(&at(&["/x", "/a"], 0).event, &at(&["/a"], 0).event));
    assert!(!same_subject(&at(&["/a", "/x"], 0).event, &at(&["/a"], 0).event));
    assert!(same_subject(&at(&[], 0).event, &at(&[], 0).event));
    assert!(!same_subject(&at(&[], 0).event, &at(&["/a"], 0).event));
    assert!(!same_subject(&at(&["/a"], 0).event, &at(&[], 0).event));
}

#[test]
fn older_event_of_another_subject_comes_before() {
    assert!(comes_before(&at(&["/a"], 1), &at(&["/b"], 2)));
    assert!(!comes_before(&at(&["/a"], 2), &at(&["/b"], 2)));
    assert!(!comes_before(&at(&["/a"], 3), &at(&["/b"], 2)));
    assert!(!comes_before(&at(&["/a"], 1), &at(&["/a"], 2)));
}

#[test]
fn empty_batch_stays_empty() {
    assert!(sort_chronological(Vec::new()).is_empty());
}

#[test]
fn batch_is_sorted_by_time_across_subjects() {
    let batch = vec![at(&["/c"], 30), at(&["/a"], 10), at(&["/b"], 20), at(&["/d"], 5)];
    assert_eq!(
        order(batch),
        expect(&[(&["/d"], 5), (&["/a"], 10), (&["/b"], 20), (&["/c"], 30)])
    );
}

#[test]
fn equal_times_keep_the_order_of_the_batch() {
    let batch = vec![at(&["/b"], 1), at(&["/a"], 1), at(&["/c"], 1)];
    assert_eq!(order(batch), expect(&[(&["/b"], 1), (&["/a"], 1), (&["/c"], 1)]));
}

#[test]
fn events_of_one_subject_are_never_reordered() {
    let batch = vec![at(&["/a"], 9), at(&["/a"], 3), at(&["/a"], 6)];
    assert_eq!(order(batch), expect(&[(&["/a"], 9), (&["/a"], 3), (&["/a"], 6)]));
}

#[test]
fn event_does_not_pass_an_earlier_one_of_its_subject() {
    // "/a"@1 is older than "/b"@5, but stands behind "/a"@9, which "/b"@5 precedes
    let batch = vec![at(&["/a"], 9), at(&["/b"], 5), at(&["/a"], 1)];
    assert_eq!(order(batch), expect(&[(&["/b"], 5), (&["/a"], 9), (&["/a"], 1)]));
}

#[test]
fn sorting_keeps_every_event() {
    let batch = vec![
        at(&["/a"], 4),
        at(&["/b"], 4),
        at(&["/a"], 2),
        at(&[], 3),
        at(&["/x", "/b"], 1),
        at(&["/a"], 4),
    ];
    let mut before: Vec<(Vec<String>, u64)> =
        batch.iter().map(|e| (e.event.paths.clone(), e.time)).collect();
    let mut after = order(batch);
    assert_eq!(after.len(), 6);
    before.sort();
    after.sort();
    assert_eq!(before, after);
}
