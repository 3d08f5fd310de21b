use framestitch::events::check_event_dir_name;
use framestitch::events::select_event_dirs;
use framestitch::events::DirEntry;

fn entry(name: &str, is_directory: bool) -> DirEntry {
    DirEntry { name: name.to_string(), is_directory }
}

#[test]
fn digit_names_qualify() {
    assert!(check_event_dir_name("42"));
    assert!(check_event_dir_name("007"));
    assert!(check_event_dir_name("0"));
}

#[test]
fn other_names_do_not_qualify() {
    assert!(!check_event_dir_name("notanum"));
    assert!(!check_event_dir_name(""));
    assert!(!check_event_dir_name("12a"));
    assert!(!check_event_dir_name("1 2"));
    assert!(!check_event_dir_name("-5"));
}

#[test]
fn only_digit_named_directories_are_selected() {
    let entries = vec![
        entry("notanum", true),
        entry("007", true),
        entry("12", false),
        entry("videos", true),
        entry("3.jpg", false),
    ];
    let selected = select_event_dirs(&entries);
    assert_eq!(selected, vec!["007".to_string()]);
}

#[test]
fn selection_keeps_the_given_order() {
    let entries = vec![
        entry("9", true),
        entry("1", true),
        entry("5", true),
    ];
    let selected = select_event_dirs(&entries);
    assert_eq!(
        selected,
        vec!["9".to_string(), "1".to_string(), "5".to_string()]
    );
}

#[test]
fn no_entries_select_nothing() {
    let entries: Vec<DirEntry> = vec![];
    assert_eq!(select_event_dirs(&entries), Vec::<String>::new());
}

#[test]
fn files_with_digit_names_are_not_selected() {
    let entries = vec![entry("42", false)];
    assert_eq!(select_event_dirs(&entries), Vec::<String>::new());
}
