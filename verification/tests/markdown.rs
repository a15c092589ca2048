use factory_droid::markdown::first_heading;

#[test]
fn marked_lines_are_headings() {
    assert_eq!(first_heading("a\n#b\r\n#c"), Some("#b"));
    assert_eq!(first_heading("#a"), Some("#a"));
    assert_eq!(first_heading("\n\r\n#\n"), Some("#"));
    assert_eq!(first_heading("x\n   ## a \n"), Some("   ## a "));
    assert_eq!(first_heading("    # code"), None);
    assert_eq!(first_heading("a #b\n c#"), None);
    assert_eq!(first_heading("a\n"), None);
    assert_eq!(first_heading(""), None);
}

#[test]
fn underlined_lines_are_headings() {
    assert_eq!(first_heading("Ship it\n==="), Some("Ship it"));
    assert_eq!(first_heading("x\n\nShip it\r\n  - a\r\ny"), None);
    assert_eq!(first_heading("x\n\nShip it\r\n  --- \r\ny"), Some("Ship it"));
    assert_eq!(first_heading("Ship it\n=-="), None);
    assert_eq!(first_heading("Ship it\n    ==="), None);
    assert_eq!(first_heading("Ship it\n"), None);
    assert_eq!(first_heading(" \t\n---\n# b"), Some("# b"));
    assert_eq!(first_heading("a\n---\n# b"), Some("a"));
}
