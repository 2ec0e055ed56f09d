use notifykit::events::base::ObjectType;
use notifykit::events::create::CreateEvent;
use notifykit::events::rename::RenameEvent;
use notifykit::events::EventType;
use notifykit::filter::EventFilter;

fn make_filter() -> EventFilter {
    EventFilter::new(
        vec!["__pycache__".into(), ".git".into(), ".venv".into()],
        vec![r"\.py[cod]$".into(), "~$".into()],
        vec![],
    )
    .unwrap()
}

#[test]
fn test_filter_by_dir() {
    let f = make_filter();
    assert!(f.should_filter_path("/home/user/proj/__pycache__/mod.pyc"));
    assert!(f.should_filter_path("/home/user/proj/.git/HEAD"));
    assert!(!f.should_filter_path("/home/user/proj/main.py"));
}

#[test]
fn test_filter_by_pattern() {
    let f = make_filter();
    assert!(f.should_filter_path("/home/user/proj/mod.pyc"));
    assert!(f.should_filter_path("/home/user/proj/logs.txt~"));
    assert!(!f.should_filter_path("/home/user/proj/app.py"));
}

#[test]
fn test_filter_by_ignore_path() {
    let f = EventFilter::new(vec![], vec![], vec!["/home/user/.cache".into()]).unwrap();

    assert!(f.should_filter_path("/home/user/.cache/something"));
    assert!(!f.should_filter_path("/home/user/proj/main.py"));
}

#[test]
fn test_filter_event() {
    let f = make_filter();

    let event = EventType::Create(CreateEvent::new(
        String::from("/home/user/proj/__pycache__/mod.pyc"),
        ObjectType::File,
    ));
    assert!(f.should_filter(&event));

    let event = EventType::Create(CreateEvent::new(
        String::from("/home/user/proj/main.py"),
        ObjectType::File,
    ));
    assert!(!f.should_filter(&event));
}

#[test]
fn test_filter_rename_both_filtered() {
    let f = make_filter();

    let event = EventType::Rename(RenameEvent::new(
        String::from("/home/user/proj/__pycache__/a"),
        String::from("/home/user/proj/.venv/b"),
    ));
    assert!(f.should_filter(&event));
}

#[test]
fn test_filter_rename_one_not_filtered() {
    let f = make_filter();

    let event = EventType::Rename(RenameEvent::new(
        String::from("/home/user/proj/__pycache__/a"),
        String::from("/home/user/proj/real_file"),
    ));
    assert!(!f.should_filter(&event));
}

#[test]
fn test_empty_filter() {
    let f = EventFilter::new(vec![], vec![], vec![]).unwrap();
    assert!(!f.should_filter_path("/any/path/file.txt"));
}

#[test]
fn pattern_that_is_no_regular_expression_is_refused() {
    let r = EventFilter::new(vec![], vec!["(".into()], vec![]);
    assert!(r.is_err());
    let r = EventFilter::new(vec![], vec!["~$".into(), "[a-".into()], vec![]);
    assert!(r.is_err());
}

#[test]
fn pattern_is_matched_against_the_file_name_only() {
    let f = EventFilter::new(vec![], vec!["^proj$".into()], vec![]).unwrap();
    assert!(!f.should_filter_path("/home/user/proj/main.py"));
    assert!(f.should_filter_path("/home/user/proj"));
    // a trailing separator and a trailing "." do not change the file name
    assert!(f.should_filter_path("/home/user/proj/"));
    assert!(f.should_filter_path("/home/user/proj/."));
    // a path that ends in ".." has no file name
    assert!(!f.should_filter_path("/home/user/proj/.."));
    let any = EventFilter::new(vec![], vec![".*".into()], vec![]).unwrap();
    assert!(!any.should_filter_path("/home/user/proj/.."));
    assert!(!any.should_filter_path("/"));
    assert!(!any.should_filter_path(""));
    assert!(any.should_filter_path("a"));
}

#[test]
fn matching_is_that_of_the_pattern_not_of_its_text() {
    // a filter that took the pattern for the text to find would keep these
    let f = EventFilter::new(vec![], vec![r"^\d+\.log$".into()], vec![]).unwrap();
    assert!(f.should_filter_path("/var/log/12345.log"));
    assert!(!f.should_filter_path("/var/log/12345.logs"));
    assert!(!f.should_filter_path(r"/var/log/^\d+\.log$"));
}

#[test]
fn ignored_dir_is_a_whole_component() {
    let f = EventFilter::new(vec![".git".into()], vec![], vec![]).unwrap();
    assert!(f.should_filter_path("/repo/.git"));
    assert!(f.should_filter_path(".git/config"));
    assert!(f.should_filter_path("/repo//.git//config"));
    assert!(!f.should_filter_path("/repo/.github/workflows"));
    assert!(!f.should_filter_path("/repo/a.git/config"));
    // the components "." and ".." name no directory
    let dots = EventFilter::new(vec![".".into(), "..".into()], vec![], vec![]).unwrap();
    assert!(!dots.should_filter_path("/repo/./a/../b"));
}

#[test]
fn ignored_path_is_a_prefix_of_the_text() {
    let f = EventFilter::new(vec![], vec![], vec!["/home/user/.cache".into()]).unwrap();
    assert!(f.should_filter_path("/home/user/.cache"));
    assert!(f.should_filter_path("/home/user/.cache-old/x"));
    assert!(!f.should_filter_path("/home/user/.cach"));
    assert!(!f.should_filter_path("home/user/.cache/x"));
}

#[test]
fn filter_holds_the_patterns_it_was_given() {
    let f = make_filter();
    assert_eq!(f.ignore_patterns(), vec![r"\.py[cod]$".to_string(), "~$".to_string()]);
    let none = EventFilter::new(vec!["x".into()], vec![], vec!["/y".into()]).unwrap();
    assert!(none.ignore_patterns().is_empty());
}
