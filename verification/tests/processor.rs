use file_id::FileId;
use notifykit::file_cache::{Entry, FileIdTable, NoCache};
use notifykit::notification::{
    AccessKind, CreateKind, DataChange, Event, EventKind, Flag, MetadataKind, ModifyKind,
    RemoveKind, RenameMode,
};
use notifykit::processor::EventProcessor;
use notifykit::processor::RawEvent;

fn event(kind: EventKind, path: &str) -> Event {
    Event::new(kind).add_path(path.to_string())
}

fn rename(mode: RenameMode, path: &str) -> Event {
    event(EventKind::Modify(ModifyKind::Name(mode)), path)
}

fn entry(path: &str, id: u64) -> Entry {
    Entry { path: path.to_string(), file_id: FileId::new_inode(id, id) }
}

fn data() -> EventKind {
    EventKind::Modify(ModifyKind::Data(DataChange::Content))
}

fn metadata(kind: MetadataKind) -> EventKind {
    EventKind::Modify(ModifyKind::Metadata(kind))
}

fn both() -> EventKind {
    EventKind::Modify(ModifyKind::Name(RenameMode::Both))
}

fn summary(batch: &[RawEvent]) -> Vec<(EventKind, Vec<String>, u64)> {
    batch.iter().map(|e| (e.event.kind, e.event.paths.clone(), e.time)).collect()
}

fn paths(list: &[&str]) -> Vec<String> {
    list.iter().map(|p| p.to_string()).collect()
}

#[test]
fn create_then_modify_within_window_yields_create_only() {
    let mut processor = EventProcessor::new(NoCache, 20);
    assert!(processor.add_event(event(EventKind::Create(CreateKind::File), "/t/a.txt"), 0, true));
    assert!(processor.add_event(event(data(), "/t/a.txt"), 5, true));

    let batch = processor.get_events(25);
    assert_eq!(
        summary(&batch),
        vec![(EventKind::Create(CreateKind::File), paths(&["/t/a.txt"]), 0)]
    );

    let again = processor.get_events(30);
    assert!(again.is_empty());
}

#[test]
fn two_metadata_changes_of_one_kind_collapse_to_the_later_one() {
    let mut processor = EventProcessor::new(NoCache, 20);
    processor.add_event(event(metadata(MetadataKind::WriteTime), "/t/a"), 0, true);
    processor.add_event(event(metadata(MetadataKind::WriteTime), "/t/a"), 5, true);

    assert!(processor.get_events(19).is_empty());
    let batch = processor.get_events(25);
    assert_eq!(summary(&batch), vec![(metadata(MetadataKind::WriteTime), paths(&["/t/a"]), 5)]);
    assert!(processor.get_events(100).is_empty());
}

#[test]
fn changes_of_different_kinds_do_not_collapse() {
    let mut processor = EventProcessor::new(NoCache, 20);
    processor.add_event(event(metadata(MetadataKind::WriteTime), "/t/a"), 0, true);
    processor.add_event(event(metadata(MetadataKind::Permissions), "/t/a"), 1, true);
    processor.add_event(event(data(), "/t/a"), 2, true);
    processor.add_event(event(metadata(MetadataKind::WriteTime), "/t/a"), 3, true);

    let batch = processor.get_events(30);
    assert_eq!(
        summary(&batch),
        vec![
            (metadata(MetadataKind::Permissions), paths(&["/t/a"]), 1),
            (data(), paths(&["/t/a"]), 2),
            (metadata(MetadataKind::WriteTime), paths(&["/t/a"]), 3),
        ]
    );
}

#[test]
fn only_the_expired_head_of_a_queue_is_collapsed() {
    let mut processor = EventProcessor::new(NoCache, 20);
    processor.add_event(event(data(), "/t/a"), 0, true);
    processor.add_event(event(data(), "/t/a"), 15, true);

    let first = processor.get_events(25);
    assert_eq!(summary(&first), vec![(data(), paths(&["/t/a"]), 0)]);
    let second = processor.get_events(35);
    assert_eq!(summary(&second), vec![(data(), paths(&["/t/a"]), 15)]);
    assert!(processor.get_events(100).is_empty());
}

#[test]
fn create_then_remove_within_window_cancels() {
    let mut processor = EventProcessor::new(NoCache, 20);
    processor.add_event(event(EventKind::Create(CreateKind::File), "/t/a"), 0, true);
    processor.add_event(event(EventKind::Remove(RemoveKind::File), "/t/a"), 5, false);

    assert!(processor.get_events(25).is_empty());
    assert!(processor.get_events(1000).is_empty());
}

#[test]
fn remove_replaces_what_was_pending() {
    let mut processor = EventProcessor::new(NoCache, 20);
    processor.add_event(event(data(), "/t/a"), 0, true);
    processor.add_event(event(EventKind::Access(AccessKind::Read), "/t/a"), 1, true);
    processor.add_event(event(EventKind::Remove(RemoveKind::File), "/t/a"), 5, false);

    let batch = processor.get_events(30);
    assert_eq!(summary(&batch), vec![(EventKind::Remove(RemoveKind::File), paths(&["/t/a"]), 5)]);
}

#[test]
fn remove_drops_the_queues_below_the_path() {
    let mut processor = EventProcessor::new(NoCache, 20);
    processor.add_event(event(data(), "/d/x"), 0, true);
    processor.add_event(event(data(), "/d/sub/y"), 1, true);
    processor.add_event(event(data(), "/dx"), 2, true);
    processor.add_event(event(data(), "/e"), 3, true);
    processor.add_event(event(EventKind::Remove(RemoveKind::Folder), "/d"), 4, false);

    let batch = processor.get_events(30);
    assert_eq!(
        summary(&batch),
        vec![
            (data(), paths(&["/dx"]), 2),
            (data(), paths(&["/e"]), 3),
            (EventKind::Remove(RemoveKind::Folder), paths(&["/d"]), 4),
        ]
    );
}

#[test]
fn rename_is_stitched_by_identity() {
    let table = FileIdTable::new(vec![entry("/t/a", 1)], vec![entry("/t/b", 1)]);
    let mut processor = EventProcessor::new(table, 20);

    assert!(processor.add_event(rename(RenameMode::From, "/t/a"), 0, false));
    // the resolver learns of the new path before its notification arrives
    processor.file_cache_mut().register("/t/b");
    assert!(processor.add_event(rename(RenameMode::To, "/t/b"), 1, true));

    assert!(processor.get_events(19).is_empty());
    let batch = processor.get_events(20);
    assert_eq!(summary(&batch), vec![(both(), paths(&["/t/a", "/t/b"]), 0)]);
    assert!(processor.get_events(100).is_empty());
    // the old path is forgotten, the new one is held
    assert_eq!(processor.file_cache().resolve("/t/a"), None);
    assert_eq!(processor.file_cache().resolve("/t/b"), Some(FileId::new_inode(1, 1)));
}

#[test]
fn identity_of_the_new_path_is_read_before_it_is_registered() {
    // the resolver holds nothing for the new path when its notification arrives
    let table = FileIdTable::new(vec![entry("/t/a", 1)], vec![entry("/t/b", 1)]);
    let mut processor = EventProcessor::new(table, 20);

    processor.add_event(rename(RenameMode::From, "/t/a"), 0, false);
    processor.add_event(rename(RenameMode::To, "/t/b"), 1, true);

    let batch = processor.get_events(30);
    assert_eq!(
        summary(&batch),
        vec![
            (EventKind::Modify(ModifyKind::Name(RenameMode::From)), paths(&["/t/a"]), 0),
            (EventKind::Modify(ModifyKind::Name(RenameMode::To)), paths(&["/t/b"]), 1),
        ]
    );
    assert_eq!(processor.file_cache().resolve("/t/b"), Some(FileId::new_inode(1, 1)));
}

#[test]
fn rename_is_stitched_by_tracker() {
    let mut processor = EventProcessor::new(NoCache, 20);
    processor.add_event(rename(RenameMode::From, "/t/a").set_tracker(7), 3, false);
    processor.add_event(rename(RenameMode::To, "/t/b").set_tracker(7), 4, true);

    let batch = processor.get_events(30);
    assert_eq!(summary(&batch), vec![(both(), paths(&["/t/a", "/t/b"]), 3)]);
    assert_eq!(batch[0].event.attrs.tracker, Some(7));
}

#[test]
fn rename_with_another_tracker_is_not_stitched() {
    let mut processor = EventProcessor::new(NoCache, 20);
    processor.add_event(rename(RenameMode::From, "/t/a").set_tracker(7), 3, false);
    processor.add_event(rename(RenameMode::To, "/t/b").set_tracker(8), 4, true);

    let batch = processor.get_events(30);
    assert_eq!(
        summary(&batch),
        vec![
            (EventKind::Modify(ModifyKind::Name(RenameMode::From)), paths(&["/t/a"]), 3),
            (EventKind::Modify(ModifyKind::Name(RenameMode::To)), paths(&["/t/b"]), 4),
        ]
    );
}

#[test]
fn rename_without_correlation_is_a_move_in() {
    let table = FileIdTable::new(vec![entry("/t/a", 1), entry("/t/b", 2)], vec![entry("/t/b", 2)]);
    let mut processor = EventProcessor::new(table, 20);

    processor.add_event(rename(RenameMode::From, "/t/a"), 0, false);
    processor.add_event(rename(RenameMode::To, "/t/b"), 1, true);

    let batch = processor.get_events(30);
    assert_eq!(
        summary(&batch),
        vec![
            (EventKind::Modify(ModifyKind::Name(RenameMode::From)), paths(&["/t/a"]), 0),
            (EventKind::Modify(ModifyKind::Name(RenameMode::To)), paths(&["/t/b"]), 1),
        ]
    );
    assert!(batch.iter().all(|e| e.event.kind != both()));
}

#[test]
fn pending_rename_is_cleared_by_any_to_half() {
    let mut processor = EventProcessor::new(NoCache, 20);
    processor.add_event(rename(RenameMode::From, "/t/a").set_tracker(7), 0, false);
    processor.add_event(rename(RenameMode::To, "/t/x").set_tracker(9), 1, true);
    // the "from" half is no longer pending: this one is a move-in too
    processor.add_event(rename(RenameMode::To, "/t/b").set_tracker(7), 2, true);

    let batch = processor.get_events(30);
    assert_eq!(
        summary(&batch),
        vec![
            (EventKind::Modify(ModifyKind::Name(RenameMode::From)), paths(&["/t/a"]), 0),
            (EventKind::Modify(ModifyKind::Name(RenameMode::To)), paths(&["/t/x"]), 1),
            (EventKind::Modify(ModifyKind::Name(RenameMode::To)), paths(&["/t/b"]), 2),
        ]
    );
}

#[test]
fn rename_onto_a_path_with_pending_events_implies_a_removal() {
    let mut processor = EventProcessor::new(NoCache, 20);
    processor.add_event(event(data(), "/t/b"), 0, true);
    processor.add_event(rename(RenameMode::From, "/t/a").set_tracker(1), 1, false);
    processor.add_event(rename(RenameMode::To, "/t/b").set_tracker(1), 2, true);

    let batch = processor.get_events(40);
    assert_eq!(
        summary(&batch),
        vec![
            (EventKind::Remove(RemoveKind::Any), paths(&["/t/b"]), 1),
            (both(), paths(&["/t/a", "/t/b"]), 1),
        ]
    );
    // the removal was not observed: it is marked as implied by the rename
    assert_eq!(batch[0].event.attrs.info, Some("override".to_string()));
    assert_eq!(batch[0].event.attrs.tracker, None);
}

#[test]
fn rename_onto_a_removed_path_keeps_the_removal_unmarked() {
    let mut processor = EventProcessor::new(NoCache, 20);
    processor.add_event(event(EventKind::Remove(RemoveKind::File), "/t/b"), 0, false);
    processor.add_event(rename(RenameMode::From, "/t/a").set_tracker(1), 1, false);
    processor.add_event(rename(RenameMode::To, "/t/b").set_tracker(1), 2, true);

    let batch = processor.get_events(40);
    assert_eq!(
        summary(&batch),
        vec![
            (EventKind::Remove(RemoveKind::Any), paths(&["/t/b"]), 1),
            (both(), paths(&["/t/a", "/t/b"]), 1),
        ]
    );
    assert_eq!(batch[0].event.attrs.info, None);
}

#[test]
fn rename_onto_a_created_path_implies_no_removal() {
    let mut processor = EventProcessor::new(NoCache, 20);
    processor.add_event(event(EventKind::Create(CreateKind::File), "/t/b"), 0, true);
    processor.add_event(rename(RenameMode::From, "/t/a").set_tracker(1), 1, false);
    processor.add_event(rename(RenameMode::To, "/t/b").set_tracker(1), 2, true);

    let batch = processor.get_events(40);
    assert_eq!(summary(&batch), vec![(both(), paths(&["/t/a", "/t/b"]), 1)]);
}

#[test]
fn two_renames_within_the_window_report_the_net_rename() {
    let mut processor = EventProcessor::new(NoCache, 20);
    processor.add_event(rename(RenameMode::From, "/t/a").set_tracker(1), 1, false);
    processor.add_event(rename(RenameMode::To, "/t/b").set_tracker(1), 2, true);
    processor.add_event(rename(RenameMode::From, "/t/b").set_tracker(2), 3, false);
    processor.add_event(rename(RenameMode::To, "/t/c").set_tracker(2), 4, true);

    let batch = processor.get_events(40);
    assert_eq!(summary(&batch), vec![(both(), paths(&["/t/a", "/t/c"]), 1)]);
    assert_eq!(batch[0].event.attrs.tracker, Some(2));
}

#[test]
fn file_created_and_renamed_within_the_window_is_created_at_the_new_path() {
    let mut processor = EventProcessor::new(NoCache, 20);
    processor.add_event(event(EventKind::Create(CreateKind::File), "/t/a"), 0, true);
    processor.add_event(event(EventKind::Access(AccessKind::Read), "/t/a"), 1, true);
    processor.add_event(rename(RenameMode::From, "/t/a").set_tracker(1), 2, false);
    processor.add_event(rename(RenameMode::To, "/t/b").set_tracker(1), 3, true);

    let batch = processor.get_events(40);
    assert_eq!(
        summary(&batch),
        vec![
            (EventKind::Create(CreateKind::File), paths(&["/t/b"]), 0),
            (EventKind::Access(AccessKind::Read), paths(&["/t/b"]), 1),
        ]
    );
}

#[test]
fn removal_recorded_before_a_rename_stays_at_the_old_path() {
    let mut processor = EventProcessor::new(NoCache, 20);
    processor.add_event(event(EventKind::Remove(RemoveKind::File), "/t/a"), 0, false);
    processor.add_event(event(EventKind::Create(CreateKind::File), "/t/a"), 1, true);
    processor.add_event(rename(RenameMode::From, "/t/a").set_tracker(1), 2, false);
    processor.add_event(rename(RenameMode::To, "/t/b").set_tracker(1), 3, true);

    let batch = processor.get_events(40);
    assert_eq!(
        summary(&batch),
        vec![
            (EventKind::Remove(RemoveKind::File), paths(&["/t/a"]), 0),
            (EventKind::Create(CreateKind::File), paths(&["/t/b"]), 1),
        ]
    );
}

#[test]
fn events_moved_by_a_rename_keep_their_times() {
    let mut processor = EventProcessor::new(NoCache, 20);
    processor.add_event(event(data(), "/t/a"), 1, true);
    processor.add_event(rename(RenameMode::From, "/t/a").set_tracker(1), 3, false);
    processor.add_event(rename(RenameMode::To, "/t/b").set_tracker(1), 4, true);

    // the rename stands first in its queue, with the time of its "from" half:
    // nothing leaves before the rename has expired
    assert!(processor.get_events(22).is_empty());
    let batch = processor.get_events(23);
    assert_eq!(
        summary(&batch),
        vec![(both(), paths(&["/t/a", "/t/b"]), 3), (data(), paths(&["/t/b"]), 1)]
    );
}

#[test]
fn rename_of_unknown_direction_goes_by_what_is_on_disk() {
    let mut processor = EventProcessor::new(NoCache, 20);
    assert!(processor.add_event(rename(RenameMode::Any, "/t/gone").set_tracker(5), 0, false));
    assert!(processor.add_event(rename(RenameMode::Any, "/t/here").set_tracker(5), 1, true));
    let batch = processor.get_events(40);
    assert_eq!(summary(&batch), vec![(both(), paths(&["/t/gone", "/t/here"]), 0)]);

    // without a partner each half is recorded with the direction it was taken for
    assert!(processor.add_event(rename(RenameMode::Any, "/t/in"), 50, true));
    assert!(processor.add_event(rename(RenameMode::Any, "/t/out"), 51, false));
    let batch = processor.get_events(100);
    assert_eq!(
        summary(&batch),
        vec![
            (EventKind::Modify(ModifyKind::Name(RenameMode::To)), paths(&["/t/in"]), 50),
            (EventKind::Modify(ModifyKind::Name(RenameMode::From)), paths(&["/t/out"]), 51),
        ]
    );
}

#[test]
fn renames_without_use_are_passed_over() {
    let mut processor = EventProcessor::new(NoCache, 20);
    assert!(!processor.add_event(rename(RenameMode::Both, "/t/a").add_path("/t/b".into()), 0, true));
    assert!(!processor.add_event(rename(RenameMode::Other, "/t/a"), 0, true));
    assert!(processor.get_events(100).is_empty());

    // the other kinds are queued
    assert!(processor.add_event(event(EventKind::Any, "/t/a"), 0, true));
    assert!(processor.add_event(event(EventKind::Modify(ModifyKind::Any), "/t/a"), 1, true));
    assert!(processor.add_event(event(EventKind::Modify(ModifyKind::Other), "/t/a"), 2, true));
    assert!(processor.add_event(event(EventKind::Other, "/t/a"), 3, true));
    assert_eq!(processor.get_events(100).len(), 4);
}

#[test]
fn notification_of_the_kind_other_is_registered_and_queued() {
    let table = FileIdTable::new(vec![entry("/t/held", 7)], vec![entry("/t/held", 1), entry("/t/p", 2)]);
    let mut processor = EventProcessor::new(table, 20);

    assert!(processor.add_event(event(EventKind::Other, "/t/p"), 3, true));
    assert_eq!(processor.file_cache().resolve("/t/p"), Some(FileId::new_inode(2, 2)));
    // a path that the resolver holds is left as it is
    assert!(processor.add_event(event(EventKind::Other, "/t/held"), 4, true));
    assert_eq!(processor.file_cache().resolve("/t/held"), Some(FileId::new_inode(7, 7)));

    assert!(processor.get_events(22).is_empty());
    let batch = processor.get_events(30);
    assert_eq!(
        summary(&batch),
        vec![
            (EventKind::Other, paths(&["/t/p"]), 3),
            (EventKind::Other, paths(&["/t/held"]), 4),
        ]
    );

    // behind a creation it is queued too: the push rule holds back changes only
    processor.add_event(event(EventKind::Create(CreateKind::File), "/t/new"), 40, true);
    processor.add_event(event(EventKind::Other, "/t/new"), 41, true);
    assert_eq!(processor.get_events(100).len(), 2);
}

#[test]
fn notification_without_a_path_is_skipped() {
    let mut processor = EventProcessor::new(NoCache, 20);
    assert!(!processor.add_event(Event::new(EventKind::Create(CreateKind::File)), 0, true));
    assert!(!processor.add_event(Event::new(data()), 0, true));
    assert!(!processor.add_event(Event::new(EventKind::Modify(ModifyKind::Name(RenameMode::To))), 0, true));
    assert!(!processor.add_event(Event::new(EventKind::Remove(RemoveKind::Any)), 0, true));
    assert!(processor.get_events(100).is_empty());
    // the engine goes on as before
    assert!(processor.add_event(event(data(), "/t/a"), 100, true));
    assert_eq!(processor.get_events(200).len(), 1);
}

#[test]
fn rescan_is_held_for_the_window_and_leaves_alone() {
    let mut processor = EventProcessor::new(NoCache, 20);
    assert!(processor.add_event(Event::new(EventKind::Other).set_flag(Flag::Rescan), 10, true));
    processor.add_event(event(data(), "/t/a"), 12, true);

    assert!(processor.get_events(29).is_empty());
    let batch = processor.get_events(30);
    assert_eq!(summary(&batch), vec![(EventKind::Other, paths(&[]), 10)]);
    assert_eq!(batch[0].event.attrs.flag, Some(Flag::Rescan));
    let batch = processor.get_events(32);
    assert_eq!(summary(&batch), vec![(data(), paths(&["/t/a"]), 12)]);
}

#[test]
fn later_rescan_replaces_the_pending_one() {
    let mut processor = EventProcessor::new(NoCache, 20);
    processor.add_event(Event::new(EventKind::Other).set_flag(Flag::Rescan), 10, true);
    processor.add_event(Event::new(EventKind::Other).set_flag(Flag::Rescan), 15, true);
    assert!(processor.get_events(30).is_empty());
    let batch = processor.get_events(35);
    assert_eq!(summary(&batch), vec![(EventKind::Other, paths(&[]), 15)]);
}

#[test]
fn rescan_is_passed_on_to_the_resolver() {
    let mut table = FileIdTable::new(vec![entry("/stale", 9)], vec![entry("/w/a", 1)]);
    table.add_root("/w");
    let mut processor = EventProcessor::new(table, 20);
    processor.file_cache_mut().set_on_disk("/w/b".to_string(), FileId::new_inode(2, 2));
    assert_eq!(processor.file_cache().resolve("/stale"), Some(FileId::new_inode(9, 9)));
    assert_eq!(processor.file_cache().resolve("/w/b"), None);

    processor.add_event(data_rescan(), 0, true);

    assert_eq!(processor.file_cache().resolve("/stale"), None);
    assert_eq!(processor.file_cache().resolve("/w/a"), Some(FileId::new_inode(1, 1)));
    assert_eq!(processor.file_cache().resolve("/w/b"), Some(FileId::new_inode(2, 2)));
}

fn data_rescan() -> Event {
    event(data(), "/w/a").set_flag(Flag::Rescan)
}

#[test]
fn events_of_different_paths_leave_in_the_order_of_their_times() {
    let mut processor = EventProcessor::new(NoCache, 20);
    processor.add_event(event(data(), "/a"), 3, true);
    processor.add_event(event(data(), "/b"), 3, true);
    processor.add_event(event(EventKind::Access(AccessKind::Read), "/a"), 5, true);
    // a rename carries the time of its "from" half, which is older than what was queued since
    processor.add_event(rename(RenameMode::From, "/x").set_tracker(1), 1, false);
    processor.add_event(rename(RenameMode::To, "/c").set_tracker(1), 6, true);
    processor.add_event(event(data(), "/d"), 4, true);

    let batch = processor.get_events(100);
    assert_eq!(
        summary(&batch),
        vec![
            (both(), paths(&["/x", "/c"]), 1),
            (data(), paths(&["/a"]), 3),
            (data(), paths(&["/b"]), 3),
            (data(), paths(&["/d"]), 4),
            (EventKind::Access(AccessKind::Read), paths(&["/a"]), 5),
        ]
    );
}

#[test]
fn events_of_one_path_leave_in_the_order_of_ingestion() {
    let mut processor = EventProcessor::new(NoCache, 20);
    processor.add_event(event(EventKind::Access(AccessKind::Read), "/a"), 10, true);
    processor.add_event(event(data(), "/a"), 5, true);
    processor.add_event(event(metadata(MetadataKind::Ownership), "/a"), 1, true);

    let batch = processor.get_events(100);
    assert_eq!(
        summary(&batch),
        vec![
            (EventKind::Access(AccessKind::Read), paths(&["/a"]), 10),
            (data(), paths(&["/a"]), 5),
            (metadata(MetadataKind::Ownership), paths(&["/a"]), 1),
        ]
    );
}

#[test]
fn drain_stops_at_the_first_event_that_has_not_expired() {
    let mut processor = EventProcessor::new(NoCache, 20);
    processor.add_event(event(EventKind::Access(AccessKind::Read), "/a"), 10, true);
    processor.add_event(event(data(), "/a"), 5, true);

    // the second event is old enough, the first is not: both stay
    assert!(processor.get_events(27).is_empty());
    assert_eq!(processor.get_events(30).len(), 2);
}

#[test]
fn age_of_an_event_from_the_future_is_zero() {
    let mut held = EventProcessor::new(NoCache, 1);
    held.add_event(event(data(), "/a"), 50, true);
    assert!(held.get_events(10).is_empty());
    assert!(held.get_events(50).is_empty());
    assert_eq!(held.get_events(51).len(), 1);

    let mut unbuffered = EventProcessor::new(NoCache, 0);
    unbuffered.add_event(event(data(), "/a"), 50, true);
    assert_eq!(unbuffered.get_events(10).len(), 1);
}

#[test]
fn times_at_the_end_of_the_clock_do_not_overflow() {
    let mut processor = EventProcessor::new(NoCache, u64::MAX);
    processor.add_event(event(data(), "/a"), 0, true);
    processor.add_event(event(data(), "/b"), u64::MAX, true);
    assert!(processor.get_events(u64::MAX - 1).is_empty());
    let batch = processor.get_events(u64::MAX);
    assert_eq!(summary(&batch), vec![(data(), paths(&["/a"]), 0)]);
}

#[test]
fn errors_are_held_until_they_are_handed_out() {
    let mut processor = EventProcessor::new(NoCache, 20);
    assert!(processor.get_errors().is_empty());
    processor.add_error(notify::Error::generic("first"));
    processor.add_error(notify::Error::path_not_found());
    processor.add_event(event(data(), "/a"), 0, true);

    // a drain of events leaves the errors where they are
    assert_eq!(processor.get_events(100).len(), 1);
    let errors = processor.get_errors();
    assert_eq!(errors.len(), 2);
    assert_eq!(errors[0].to_string(), "first");
    assert!(matches!(errors[1].kind, notify::ErrorKind::PathNotFound));
    assert!(processor.get_errors().is_empty());
}

#[test]
fn resolver_is_told_of_creations_and_removals() {
    let table = FileIdTable::new(vec![], vec![entry("/t/a", 1), entry("/t/a/x", 2)]);
    let mut processor = EventProcessor::new(table, 20);

    processor.add_event(event(EventKind::Create(CreateKind::Folder), "/t/a"), 0, true);
    assert_eq!(processor.file_cache().resolve("/t/a"), Some(FileId::new_inode(1, 1)));
    assert_eq!(processor.file_cache().resolve("/t/a/x"), Some(FileId::new_inode(2, 2)));

    processor.add_event(event(EventKind::Remove(RemoveKind::Folder), "/t/a"), 1, false);
    assert_eq!(processor.file_cache().resolve("/t/a"), None);
    assert_eq!(processor.file_cache().resolve("/t/a/x"), None);
}

#[test]
fn resolver_registers_a_changed_path_that_it_does_not_hold() {
    let table = FileIdTable::new(vec![entry("/t/known", 7)], vec![entry("/t/known", 1), entry("/t/new", 2)]);
    let mut processor = EventProcessor::new(table, 20);

    processor.add_event(event(data(), "/t/new"), 0, true);
    assert_eq!(processor.file_cache().resolve("/t/new"), Some(FileId::new_inode(2, 2)));
    // a path that the resolver holds is left as it is
    processor.add_event(event(data(), "/t/known"), 0, true);
    assert_eq!(processor.file_cache().resolve("/t/known"), Some(FileId::new_inode(7, 7)));
}

#[test]
fn stitching_forgets_the_old_path_once_more() {
    let table = FileIdTable::new(vec![entry("/t/a", 1)], vec![entry("/t/a", 2), entry("/t/b", 1)]);
    let mut processor = EventProcessor::new(table, 20);

    processor.add_event(rename(RenameMode::From, "/t/a").set_tracker(1), 0, false);
    assert_eq!(processor.file_cache().resolve("/t/a"), None);
    processor.add_event(event(EventKind::Create(CreateKind::File), "/t/a"), 1, true);
    assert_eq!(processor.file_cache().resolve("/t/a"), Some(FileId::new_inode(2, 2)));
    processor.add_event(rename(RenameMode::To, "/t/b").set_tracker(1), 2, true);
    assert_eq!(processor.file_cache().resolve("/t/a"), None);
    assert_eq!(processor.file_cache().resolve("/t/b"), Some(FileId::new_inode(1, 1)));

    // a "to" half that is not stitched leaves the old path alone
    let table = FileIdTable::new(vec![], vec![entry("/t/a", 2), entry("/t/b", 1)]);
    let mut processor = EventProcessor::new(table, 20);
    processor.add_event(rename(RenameMode::From, "/t/a").set_tracker(1), 0, false);
    processor.add_event(event(EventKind::Create(CreateKind::File), "/t/a"), 1, true);
    processor.add_event(rename(RenameMode::To, "/t/b").set_tracker(2), 2, true);
    assert_eq!(processor.file_cache().resolve("/t/a"), Some(FileId::new_inode(2, 2)));
}

#[test]
fn rename_takes_the_last_event_of_the_source_for_its_from_half() {
    // the removal took the place of the "from" half in the queue of the old path
    let mut processor = EventProcessor::new(NoCache, 20);
    processor.add_event(rename(RenameMode::From, "/t/a").set_tracker(1), 1, false);
    processor.add_event(event(EventKind::Remove(RemoveKind::File), "/t/a"), 2, false);
    processor.add_event(rename(RenameMode::To, "/t/b").set_tracker(1), 3, true);

    let batch = processor.get_events(40);
    assert_eq!(summary(&batch), vec![(both(), paths(&["/t/a", "/t/b"]), 1)]);
}

#[test]
fn rename_onto_the_same_path_is_reported_as_such() {
    let mut processor = EventProcessor::new(NoCache, 20);
    processor.add_event(event(data(), "/t/a"), 0, true);
    processor.add_event(rename(RenameMode::From, "/t/a").set_tracker(1), 1, false);
    processor.add_event(rename(RenameMode::To, "/t/a").set_tracker(1), 2, true);

    let batch = processor.get_events(40);
    assert_eq!(
        summary(&batch),
        vec![(both(), paths(&["/t/a", "/t/a"]), 1), (data(), paths(&["/t/a"]), 0)]
    );
}

#[test]
fn events_after_a_rename_follow_it_in_the_queue_of_the_new_path() {
    let mut processor = EventProcessor::new(NoCache, 20);
    processor.add_event(rename(RenameMode::From, "/t/a").set_tracker(1), 1, false);
    processor.add_event(rename(RenameMode::To, "/t/b").set_tracker(1), 2, true);
    processor.add_event(event(data(), "/t/b"), 3, true);
    processor.add_event(event(EventKind::Remove(RemoveKind::File), "/t/b"), 4, false);

    // the removal replaces what was pending, the rename with it
    let batch = processor.get_events(40);
    assert_eq!(summary(&batch), vec![(EventKind::Remove(RemoveKind::File), paths(&["/t/b"]), 4)]);
}

#[test]
fn second_creation_within_the_window_is_not_queued() {
    let mut processor = EventProcessor::new(NoCache, 20);
    processor.add_event(event(EventKind::Create(CreateKind::File), "/t/a"), 0, true);
    processor.add_event(event(EventKind::Create(CreateKind::Any), "/t/a"), 1, true);
    processor.add_event(event(metadata(MetadataKind::Permissions), "/t/a"), 2, true);
    // an access is queued all the same
    processor.add_event(event(EventKind::Access(AccessKind::Read), "/t/a"), 3, true);
    // and so is a change behind a move into the tree, which counts as a creation
    processor.add_event(rename(RenameMode::To, "/t/in"), 4, true);
    processor.add_event(event(data(), "/t/in"), 5, true);

    let batch = processor.get_events(40);
    assert_eq!(
        summary(&batch),
        vec![
            (EventKind::Create(CreateKind::File), paths(&["/t/a"]), 0),
            (EventKind::Access(AccessKind::Read), paths(&["/t/a"]), 3),
            (EventKind::Modify(ModifyKind::Name(RenameMode::To)), paths(&["/t/in"]), 4),
        ]
    );
}

#[test]
fn creation_behind_other_events_does_not_suppress() {
    let mut processor = EventProcessor::new(NoCache, 20);
    processor.add_event(event(data(), "/t/a"), 0, true);
    processor.add_event(event(EventKind::Create(CreateKind::File), "/t/a"), 1, true);
    processor.add_event(event(metadata(MetadataKind::Any), "/t/a"), 2, true);

    let batch = processor.get_events(40);
    assert_eq!(
        summary(&batch),
        vec![
            (data(), paths(&["/t/a"]), 0),
            (EventKind::Create(CreateKind::File), paths(&["/t/a"]), 1),
            (metadata(MetadataKind::Any), paths(&["/t/a"]), 2),
        ]
    );
}
