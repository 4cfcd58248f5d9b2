use mkdesktop::desktop::DesktopEntry;
use mkdesktop::slug::{name_to_desktop_file_path, name_to_filename};

#[test]
fn runs_of_invalid_characters_become_one_dash() {
    assert_eq!(name_to_filename("My App!!"), "mkdesktop-My-App-.desktop");
    assert_eq!(name_to_filename("a  /\\  b"), "mkdesktop-a-b.desktop");
}

#[test]
fn word_characters_dash_plus_underscore_are_kept() {
    assert_eq!(name_to_filename("c++_x-y9"), "mkdesktop-c++_x-y9.desktop");
    assert_eq!(name_to_filename("Café"), "mkdesktop-Caf-.desktop");
    assert_eq!(name_to_filename("日本語 app"), "mkdesktop--app.desktop");
}

#[test]
fn empty_name_gives_bare_prefix_and_suffix() {
    assert_eq!(name_to_filename(""), "mkdesktop-.desktop");
}

#[test]
fn filenames_hold_no_separator_and_only_safe_ascii() {
    let names = ["a/b", "../../etc/passwd", "x:y*z?", "tab\tand\nnewline", "(1) [2] {3}", "Ünïcödé/ñame"];
    for name in names.iter() {
        let f = name_to_filename(name);
        assert_eq!(f, name_to_filename(name));
        let body = &f["mkdesktop-".len()..f.len() - ".desktop".len()];
        assert!(!body.contains('/'));
        assert!(body
            .chars()
            .all(|c| c.is_ascii_alphanumeric() || c == '-' || c == '+' || c == '_'));
    }
}

#[test]
fn filename_depends_on_name_only() {
    let a = DesktopEntry::new("Same", "one", "", "/bin/a", "", "");
    let b = DesktopEntry::new("Same", "two", "/x", "/bin/b", "i", "c");
    assert_eq!(a.filename(), b.filename());
    assert_eq!(a.filename(), "mkdesktop-Same.desktop");
}

#[test]
fn desktop_file_path_joins_directory_and_filename() {
    assert_eq!(
        name_to_desktop_file_path("/home/u/.local/share/mkdesktop", "Foo"),
        "/home/u/.local/share/mkdesktop/mkdesktop-Foo.desktop"
    );
    assert_eq!(name_to_desktop_file_path("/data/", "Foo"), "/data/mkdesktop-Foo.desktop");
    assert_eq!(name_to_desktop_file_path("", "Foo"), "mkdesktop-Foo.desktop");
    let e = DesktopEntry::new("My App", "", "", "/bin/x", "", "");
    assert_eq!(e.filepath("/d"), "/d/mkdesktop-My-App.desktop");
}
