use file_id::FileId;
use notifykit::file_cache::{Entry, FileIdCache, FileIdTable, NoCache};

fn id(n: u64) -> FileId {
    FileId::new_inode(n, n)
}

fn entry(path: &str, n: u64) -> Entry {
    Entry { path: path.to_string(), file_id: id(n) }
}

#[test]
fn new_table_holds_what_it_was_given() {
    let table = FileIdTable::new(vec![entry("/a", 1), entry("/b", 2), entry("/a", 3)], vec![]);
    // a later line for a path replaces an earlier one
    assert_eq!(table.resolve("/a"), Some(id(3)));
    assert_eq!(table.resolve("/b"), Some(id(2)));
    assert_eq!(table.resolve("/c"), None);
    assert_eq!(table.resolve(""), None);
}

#[test]
fn register_takes_what_is_on_disk_at_and_below_the_path() {
    let disk = vec![entry("/w", 1), entry("/w/a", 2), entry("/w/a/b", 3), entry("/wx", 4), entry("/v", 5)];
    let mut table = FileIdTable::new(vec![], disk);
    assert_eq!(table.resolve("/w"), None);

    table.register("/w");
    assert_eq!(table.resolve("/w"), Some(id(1)));
    assert_eq!(table.resolve("/w/a"), Some(id(2)));
    assert_eq!(table.resolve("/w/a/b"), Some(id(3)));
    // a path that only starts like the registered one does not lie below it
    assert_eq!(table.resolve("/wx"), None);
    assert_eq!(table.resolve("/v"), None);
}

#[test]
fn register_is_stable_until_forget() {
    let mut table = FileIdTable::new(vec![], vec![entry("/w/a", 2), entry("/v", 5)]);
    table.register("/w/a");
    table.register("/v");
    table.register("/w/a");
    table.forget("/v");
    assert_eq!(table.resolve("/w/a"), Some(id(2)));
    assert_eq!(table.resolve("/v"), None);
    table.forget("/w");
    assert_eq!(table.resolve("/w/a"), None);
    table.register("/w");
    assert_eq!(table.resolve("/w/a"), Some(id(2)));
}

#[test]
fn register_of_a_path_that_is_gone_holds_nothing() {
    let mut table = FileIdTable::new(vec![entry("/gone", 7), entry("/gone/x", 8), entry("/kept", 9)], vec![]);
    table.register("/gone");
    assert_eq!(table.resolve("/gone"), None);
    assert_eq!(table.resolve("/gone/x"), None);
    assert_eq!(table.resolve("/kept"), Some(id(9)));
}

#[test]
fn forget_drops_the_path_and_what_lies_below() {
    let mut table = FileIdTable::new(
        vec![entry("/w", 1), entry("/w/a", 2), entry("/wx", 4), entry("/", 6)],
        vec![entry("/w", 1)],
    );
    table.forget("/w");
    assert_eq!(table.resolve("/w"), None);
    assert_eq!(table.resolve("/w/a"), None);
    assert_eq!(table.resolve("/wx"), Some(id(4)));
    assert_eq!(table.resolve("/"), Some(id(6)));
    // everything lies below the root directory
    table.forget("/");
    assert_eq!(table.resolve("/wx"), None);
    assert_eq!(table.resolve("/"), None);
}

#[test]
fn what_is_on_disk_changes_only_when_the_table_is_told() {
    let mut table = FileIdTable::new(vec![], vec![entry("/a", 1)]);
    table.register("/a");
    table.set_on_disk("/a".to_string(), id(2));
    assert_eq!(table.resolve("/a"), Some(id(1)));
    table.register("/a");
    assert_eq!(table.resolve("/a"), Some(id(2)));
}

#[test]
fn rescan_holds_what_is_on_disk_below_the_roots() {
    let disk = vec![entry("/w/a", 1), entry("/v/b", 2), entry("/u/c", 3)];
    let mut table = FileIdTable::new(vec![entry("/stale", 9), entry("/u/c", 3)], disk);
    table.add_root("/w");
    table.add_root("/v");
    table.set_on_disk("/w/new".to_string(), id(4));
    assert_eq!(table.resolve("/w/new"), None);

    FileIdTable::rescan(&mut table);
    assert_eq!(table.resolve("/w/a"), Some(id(1)));
    assert_eq!(table.resolve("/w/new"), Some(id(4)));
    assert_eq!(table.resolve("/v/b"), Some(id(2)));
    assert_eq!(table.resolve("/u/c"), None);
    assert_eq!(table.resolve("/stale"), None);
}

#[test]
fn root_that_is_removed_is_no_longer_rescanned() {
    let mut table = FileIdTable::new(vec![], vec![entry("/w/a", 1), entry("/v/b", 2)]);
    table.add_root("/w");
    table.add_root("/v");
    assert_eq!(table.resolve("/w/a"), Some(id(1)));
    table.remove_root("/w");
    assert_eq!(table.resolve("/w/a"), None);
    assert_eq!(table.resolve("/v/b"), Some(id(2)));

    FileIdTable::rescan(&mut table);
    assert_eq!(table.resolve("/w/a"), None);
    assert_eq!(table.resolve("/v/b"), Some(id(2)));
}

#[test]
fn roots_are_listed_in_the_order_they_were_added() {
    let mut table = FileIdTable::new(vec![], vec![]);
    assert!(table.roots().is_empty());
    table.add_root("/w");
    table.add_root("/v");
    table.add_root("/w");
    assert_eq!(table.roots(), vec!["/w".to_string(), "/v".to_string(), "/w".to_string()]);
    table.remove_root("/w");
    assert_eq!(table.roots(), vec!["/v".to_string()]);
}

#[test]
fn rescan_without_roots_holds_nothing() {
    let mut table = FileIdTable::new(vec![entry("/a", 1)], vec![entry("/a", 1)]);
    FileIdTable::rescan(&mut table);
    assert_eq!(table.resolve("/a"), None);
}

#[test]
fn table_is_a_resolver() {
    fn through<T: FileIdCache>(cache: &mut T) -> (Option<FileId>, Option<FileId>, Option<FileId>) {
        let before = cache.get_file_id("/w/a");
        cache.add_path("/w");
        let registered = cache.get_file_id("/w/a");
        cache.remove_path("/w/a");
        (before, registered, cache.get_file_id("/w/a"))
    }
    let mut table = FileIdTable::new(vec![], vec![entry("/w/a", 1)]);
    assert_eq!(through(&mut table), (None, Some(id(1)), None));
    table.add_root("/w");
    FileIdCache::rescan(&mut table);
    assert_eq!(table.get_file_id("/w/a"), Some(id(1)));
}

#[test]
fn different_paths_on_disk_have_different_identities() {
    let mut table = FileIdTable::new(vec![], vec![entry("/w/a", 1), entry("/w/b", 2)]);
    table.register("/w");
    assert!(table.resolve("/w/a").is_some());
    assert_ne!(table.resolve("/w/a"), table.resolve("/w/b"));
}

#[test]
fn what_is_gone_from_disk_is_not_registered_again() {
    let mut table = FileIdTable::new(vec![], vec![entry("/w", 1), entry("/w/a", 2), entry("/v", 3)]);
    table.register("/w");
    table.clear_on_disk("/w/a");
    // what the resolver holds stays until the path is registered again
    assert_eq!(table.resolve("/w/a"), Some(id(2)));
    table.register("/w");
    assert_eq!(table.resolve("/w"), Some(id(1)));
    assert_eq!(table.resolve("/w/a"), None);
    table.clear_on_disk("");
    table.register("/v");
    assert_eq!(table.resolve("/v"), None);
    assert_eq!(table.resolve("/w"), Some(id(1)));
}

#[test]
fn resolver_without_identities_holds_none() {
    let mut none = NoCache;
    none.add_path("/a");
    assert_eq!(none.get_file_id("/a"), None);
    none.remove_path("/a");
    none.rescan();
    assert_eq!(none.get_file_id("/a"), None);
}
