use mkdesktop::codec::make_desktop;
use mkdesktop::desktop::DesktopEntry;

#[test]
fn desktop_entry_can_parse_desktop_format() {
    let desktop_string = "[Desktop Entry]
# Taken from https://wiki.archlinux.org/index.php/desktop_entries
# The type as listed above
Type=Application
# The version of the desktop entry specification to which this file complies
Version=1.0
# The name of the application
Name=jMemorize
# A comment which can/will be used as a tooltip
Comment=Flash card based learning tool
# The path to the folder in which the executable is run
Path=/opt/jmemorise

# The executable of the application, possibly with arguments.
Exec=jmemorize
# The name of the icon that will be used to display this entry
Icon=jmemorize
# Describes whether this application needs to be run in a terminal or not
Terminal=false
# Describes the categories in which this entry should be shown
Categories=Education;Languages;Java;";
    let desktop_entry = DesktopEntry::read(desktop_string);

    assert_eq!(desktop_entry.get_type(), "Application");
    assert_eq!(desktop_entry.get_comment(), "Flash card based learning tool");
    assert_eq!(desktop_entry.get_path(), "/opt/jmemorise");
    assert_eq!(desktop_entry.get_exec(), "jmemorize");
    assert_eq!(desktop_entry.get_icon(), "jmemorize");
    assert_eq!(desktop_entry.get_terminal(), false);
    assert_eq!(desktop_entry.get_categories(), "Education;Languages;Java;");
}

#[test]
fn desktop_desktop_entry_can_parse_desktop_format() {
    let desktop_string = "[Desktop Entry]
# Taken from https://wiki.archlinux.org/index.php/desktop_entries
# The type as listed above
Type=Application
# The version of the desktop entry specification to which this file complies
Version=1.0
# The name of the application
Name=jMemorize
# A comment which can/will be used as a tooltip
Comment=Flash card based learning tool
# The path to the folder in which the executable is run
Path=/opt/jmemorise
# The executable of the application, possibly with arguments.
Exec=jmemorize
# The name of the icon that will be used to display this entry
Icon=jmemorize
# Describes whether this application needs to be run in a terminal or not
Terminal=false
# Describes the categories in which this entry should be shown
Categories=Education;Languages;Java;";
    let desktop_entry = DesktopEntry::read(desktop_string);

    assert_eq!(desktop_entry.get_type(), "Application");
    assert_eq!(desktop_entry.get_comment(), "Flash card based learning tool");
    assert_eq!(desktop_entry.get_path(), "/opt/jmemorise");
    assert_eq!(desktop_entry.get_exec(), "jmemorize");
    assert_eq!(desktop_entry.get_icon(), "jmemorize");
    assert_eq!(desktop_entry.get_terminal(), false);
    assert_eq!(desktop_entry.get_categories(), "Education;Languages;Java;");
}

#[test]
fn parse_reads_name_and_empty_input_gives_blank() {
    let e = DesktopEntry::read("[Desktop Entry]\nName=jMemorize\n");
    assert_eq!(e.get_name(), "jMemorize");
    let b = DesktopEntry::read("");
    assert_eq!(b.get_name(), "");
    assert_eq!(b.get_type(), "Application");
    assert_eq!(b.get_exec(), "");
    assert_eq!(b.get_terminal(), false);
}

#[test]
fn parse_skips_other_sections() {
    let text = "[Desktop Entry]\nName=Main\nExec=/bin/main\n\n[Desktop Action delete-shortcut]\nName=Delete Shortcut\nExec=mkdesktop --rm \"Main\"\n";
    let e = DesktopEntry::read(text);
    assert_eq!(e.get_name(), "Main");
    assert_eq!(e.get_exec(), "/bin/main");
}

#[test]
fn parse_ignores_keys_before_the_section() {
    let e = DesktopEntry::read("Name=Outside\n[Desktop Entry]\nExec=/bin/x\n");
    assert_eq!(e.get_name(), "");
    assert_eq!(e.get_exec(), "/bin/x");
}

#[test]
fn parse_trims_and_drops_trailing_comment() {
    let e = DesktopEntry::read("[Desktop Entry]\n  Name  =  Foo Bar  # a note\nIcon=icon\n");
    assert_eq!(e.get_name(), "Foo Bar");
    assert_eq!(e.get_icon(), "icon");
}

#[test]
fn parse_ignores_unknown_keys_and_malformed_lines() {
    let e = DesktopEntry::read("[Desktop Entry]\nname=lower\nGenericName=x\njust words\n=novalue\nName=Real\n");
    assert_eq!(e.get_name(), "Real");
}

#[test]
fn parse_terminal_flag_is_case_insensitive_contains_true() {
    assert!(DesktopEntry::read("[Desktop Entry]\nTerminal=TRUE\n").get_terminal());
    assert!(DesktopEntry::read("[Desktop Entry]\nTerminal=  True  \n").get_terminal());
    assert!(DesktopEntry::read("[Desktop Entry]\nTerminal=untrue\n").get_terminal());
    assert!(!DesktopEntry::read("[Desktop Entry]\nTerminal=yes\n").get_terminal());
    assert!(!DesktopEntry::read("[Desktop Entry]\nTerminal=\n").get_terminal());
    assert!(!DesktopEntry::read("[Desktop Entry]\nTerminal=false\n").get_terminal());
}

#[test]
fn parse_type_key_sets_kind() {
    let e = DesktopEntry::read("[Desktop Entry]\nType=Link\n");
    assert_eq!(e.get_type(), "Link");
}

#[test]
fn make_desktop_writes_fixed_layout() {
    let text = make_desktop(
        "jMemorize",
        "Flash card based learning tool",
        "/opt/jmemorise",
        "jmemorize",
        "jmemorize",
        false,
        "Education;Languages;Java;",
    );
    assert_eq!(
        text,
        "[Desktop Entry]\nType=Application\nVersion=1.0\nName=jMemorize\nExec=jmemorize\nComment=Flash card based learning tool\nPath=/opt/jmemorise\nIcon=jmemorize\nCategories=Education;Languages;Java;\nTerminal=false\n"
    );
}

#[test]
fn make_desktop_omits_empty_optional_fields() {
    let text = make_desktop("Foo", "", "", "/bin/foo", "", true, "");
    assert_eq!(
        text,
        "[Desktop Entry]\nType=Application\nVersion=1.0\nName=Foo\nExec=/bin/foo\nTerminal=true\n"
    );
    assert!(!text.contains("Comment="));
    assert!(!text.contains("Path="));
    assert!(!text.contains("Icon="));
    assert!(!text.contains("Categories="));
    let e = DesktopEntry::read(&text);
    assert_eq!(e.get_comment(), "");
    assert_eq!(e.get_path(), "");
    assert_eq!(e.get_icon(), "");
    assert_eq!(e.get_categories(), "");
    assert!(e.get_terminal());
}

#[test]
fn write_then_read_gives_the_entry_back() {
    let e = DesktopEntry::new(
        "My Editor",
        "Edits [things]",
        "/home/me",
        "/usr/bin/editor --new-window",
        "/icons/editor.png",
        "Development;TextEditor;",
    );
    let back = DesktopEntry::read(&e.write());
    assert_eq!(back.get_name(), "My Editor");
    assert_eq!(back.get_comment(), "Edits [things]");
    assert_eq!(back.get_path(), "/home/me");
    assert_eq!(back.get_exec(), "/usr/bin/editor --new-window");
    assert_eq!(back.get_icon(), "/icons/editor.png");
    assert_eq!(back.get_categories(), "Development;TextEditor;");
    assert_eq!(back.get_terminal(), false);
    assert_eq!(back.get_type(), "Application");
}

#[test]
fn blank_and_new_set_fields() {
    let b = DesktopEntry::blank();
    assert_eq!(b.get_name(), "");
    assert_eq!(b.get_type(), "Application");
    let e = DesktopEntry::new("N", "C", "P", "E", "I", "K");
    assert_eq!(e.get_name(), "N");
    assert_eq!(e.get_comment(), "C");
    assert_eq!(e.get_path(), "P");
    assert_eq!(e.get_exec(), "E");
    assert_eq!(e.get_icon(), "I");
    assert_eq!(e.get_categories(), "K");
    assert_eq!(e.get_type(), "Application");
    assert!(!e.get_terminal());
}

#[test]
fn display_shows_directory_only_when_set() {
    let e = DesktopEntry::new("Foo", "", "", "/bin/foo", "", "");
    assert_eq!(e.display(), "Foo\n\texec /bin/foo");
    let f = DesktopEntry::new("Foo", "", "/srv", "/bin/foo", "", "");
    assert_eq!(f.display(), "Foo\n\tcd /srv\n\texec /bin/foo");
}

#[test]
fn clone_keeps_every_field() {
    let e = DesktopEntry::new("A", "B", "C", "D", "E", "F");
    let c = e.clone();
    assert_eq!(c.write(), e.write());
}
