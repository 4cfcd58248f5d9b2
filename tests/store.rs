use mkdesktop::desktop::DesktopEntry;
use mkdesktop::store::read_desktop_files;

#[test]
fn unreadable_file_is_skipped() {
    let good = DesktopEntry::new("Good", "", "", "/bin/good", "", "").write();
    let files = vec![Some(good), None];
    let entries = read_desktop_files(&files);
    assert_eq!(entries.len(), 1);
    assert_eq!(entries[0].get_name(), "Good");
}

#[test]
fn files_are_listed_in_the_order_given() {
    let files = vec![
        Some("[Desktop Entry]\nName=B\n".to_string()),
        None,
        Some("garbage".to_string()),
        Some("[Desktop Entry]\nName=A\n".to_string()),
    ];
    let entries = read_desktop_files(&files);
    assert_eq!(entries.len(), 3);
    assert_eq!(entries[0].get_name(), "B");
    assert_eq!(entries[1].get_name(), "");
    assert_eq!(entries[2].get_name(), "A");
}

#[test]
fn no_files_no_entries() {
    let files: Vec<Option<String>> = Vec::new();
    assert!(read_desktop_files(&files).is_empty());
}
