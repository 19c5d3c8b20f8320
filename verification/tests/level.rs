use rust_rapport::level::Level;

#[test]
fn parses_known_levels() {
    assert_eq!(Level::from_str("error"), Some(Level::Error));
    assert_eq!(Level::from_str("warning"), Some(Level::Warning));
}

#[test]
fn returns_none_for_unknown() {
    assert_eq!(Level::from_str("note"), None);
    assert_eq!(Level::from_str("help"), None);
    assert_eq!(Level::from_str(""), None);
    assert_eq!(Level::from_str("ERROR"), None);
}

#[test]
fn level_match_is_exact() {
    assert_eq!(Level::from_str("error "), None);
    assert_eq!(Level::from_str("warnings"), None);
    assert_eq!(Level::from_str("Warning"), None);
    assert_eq!(Level::from_str("erro"), None);
}
