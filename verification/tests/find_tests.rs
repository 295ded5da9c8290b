use schedule_core::edit::find::{parse_tagged_presenter, str_eq_ignore_ascii_case, trim_str};

#[test]
fn plain_name() {
    let t = parse_tagged_presenter("Alice Smith").unwrap();
    assert_eq!(t.name, "Alice Smith");
    assert_eq!(t.group, None);
    assert!(!t.always_grouped);
    assert!(!t.always_shown);
}

#[test]
fn name_and_group() {
    let t = parse_tagged_presenter("Alice = The Band").unwrap();
    assert_eq!(t.name, "Alice");
    assert_eq!(t.group.as_deref(), Some("The Band"));
    assert!(!t.always_grouped);
    assert!(!t.always_shown);
}

#[test]
fn always_grouped_and_always_shown() {
    let t = parse_tagged_presenter("< Alice == The Band").unwrap();
    assert_eq!(t.name, "Alice");
    assert_eq!(t.group.as_deref(), Some("The Band"));
    assert!(t.always_grouped);
    assert!(t.always_shown);
}

#[test]
fn group_only() {
    let t = parse_tagged_presenter("=The Band").unwrap();
    assert_eq!(t.name, "");
    assert_eq!(t.group.as_deref(), Some("The Band"));
}

#[test]
fn empty_group_is_none() {
    let t = parse_tagged_presenter("Alice =  ").unwrap();
    assert_eq!(t.name, "Alice");
    assert_eq!(t.group, None);
    let t = parse_tagged_presenter("Alice==").unwrap();
    assert_eq!(t.group, None);
    assert!(t.always_shown);
    let t = parse_tagged_presenter("Alice===").unwrap();
    assert_eq!(t.group.as_deref(), Some("="));
    assert!(t.always_shown);
}

#[test]
fn other_and_empty_are_not_presenters() {
    assert!(parse_tagged_presenter("").is_none());
    assert!(parse_tagged_presenter("Other").is_none());
    assert!(parse_tagged_presenter("OTHER").is_none());
    assert!(parse_tagged_presenter("Others").is_some());
}

#[test]
fn trim_and_case_helpers() {
    assert_eq!(trim_str("  a b \t\n"), "a b");
    assert_eq!(trim_str("\u{3000}x\u{00A0}"), "x");
    assert_eq!(trim_str("   "), "");
    assert!(str_eq_ignore_ascii_case("Panel 1", "PANEL 1"));
    assert!(!str_eq_ignore_ascii_case("Panel 1", "Panel 2"));
    assert!(!str_eq_ignore_ascii_case("É", "é"));
}

#[test]
fn trim_matches_std_white_space() {
    let samples = ["\u{3000}Name\u{a0}", "\t\n x \r", "\u{2009}y\u{205f}", "\u{200b}z", "plain"];
    for s in samples {
        assert_eq!(trim_str(s), s.trim());
    }
}
