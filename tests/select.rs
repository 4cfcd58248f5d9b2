use mkdesktop::desktop::DesktopEntry;
use mkdesktop::select::{select, valid_entry_or_none, SelectError};

fn entry(name: &str) -> DesktopEntry {
    DesktopEntry::new(name, "", "", "/bin/true", "", "")
}

fn list(names: &[&str]) -> Vec<DesktopEntry> {
    names.iter().map(|n| entry(n)).collect()
}

#[test]
fn index_selects_entry_at_that_position() {
    let es = list(&["A", "B", "C"]);
    let r = select("2", &es);
    assert_eq!(r.ok().unwrap().get_name(), "C");
    let r0 = select("0", &es);
    assert_eq!(r0.ok().unwrap().get_name(), "A");
}

#[test]
fn index_past_the_end_is_not_found() {
    let es = list(&["A", "B"]);
    match select("2", &es) {
        Err(SelectError::NotFound { token }) => assert_eq!(token, "2"),
        _ => panic!("expected not found"),
    }
    let empty: Vec<DesktopEntry> = Vec::new();
    assert!(select("0", &empty).is_err());
}

#[test]
fn index_past_the_end_falls_through_to_names() {
    let es = list(&["5"]);
    assert_eq!(select("5", &es).ok().unwrap().get_name(), "5");
    let es2 = list(&["A", " 7 "]);
    assert!(select("7", &es2).is_err());
    assert_eq!(select("  7", &list(&["7"])).ok().unwrap().get_name(), "7");
}

#[test]
fn wrapped_index_selects_like_bare_index() {
    let es = list(&["A", "B", "C", "D"]);
    for tok in ["(3)", " 3 ", "[3]", "{ 3 }", "3", "003"].iter() {
        let r = select(tok, &es);
        assert_eq!(r.ok().unwrap().get_name(), "D");
    }
    let short = list(&["A", "B", "C"]);
    for tok in ["(3)", " 3 ", "3"].iter() {
        match select(tok, &short) {
            Err(e) => assert_eq!(e.token(), *tok),
            Ok(_) => panic!("expected an error"),
        }
    }
}

#[test]
fn index_is_tried_before_names() {
    let es = list(&["1", "0"]);
    assert_eq!(select("1", &es).ok().unwrap().get_name(), "0");
}

#[test]
fn huge_index_is_out_of_range() {
    let es = list(&["A"]);
    assert!(matches!(
        select("99999999999999999999999999", &es),
        Err(SelectError::NotFound { .. })
    ));
    let named = list(&["A", "99999999999999999999999999"]);
    assert_eq!(
        select("99999999999999999999999999", &named).ok().unwrap().get_name(),
        "99999999999999999999999999"
    );
}

#[test]
fn name_selects_exact_match_only() {
    let es = list(&["MyApplication", "Other MyApp", "MyApp", "MyApp"]);
    let r = select("MyApp", &es).ok().unwrap();
    assert_eq!(r.get_name(), "MyApp");
    let es2 = list(&["MyApplication"]);
    match select("MyApp", &es2) {
        Err(SelectError::NotFound { token }) => assert_eq!(token, "MyApp"),
        _ => panic!("expected not found"),
    }
}

#[test]
fn name_is_compared_after_trimming_the_token() {
    let es = list(&["A", "My App"]);
    assert_eq!(select("  My App \t", &es).ok().unwrap().get_name(), "My App");
}

#[test]
fn filename_selects_its_entry() {
    let es = list(&["A", "My App!"]);
    assert_eq!(select("mkdesktop-My-App-.desktop", &es).ok().unwrap().get_name(), "My App!");
    assert!(select(" mkdesktop-My-App-.desktop", &es).is_err());
}

#[test]
fn valid_entry_or_none_passes_entry_or_error() {
    assert!(matches!(valid_entry_or_none(None), Ok(None)));
    let ok = valid_entry_or_none(Some(Ok(entry("A")))).ok().unwrap().unwrap();
    assert_eq!(ok.get_name(), "A");
    let err = valid_entry_or_none(Some(Err(SelectError::NotFound { token: "x".to_string() })));
    assert!(err.is_err());
}
