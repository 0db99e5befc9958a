use dusty::cli::Args;

#[test]
fn interface_starts_unless_developer_mode() {
    let plain = Args { lang: None, dev: None, test: None };
    assert!(plain.shows_ui());
    let off = Args { lang: Some("french".to_string()), dev: Some(false), test: Some(true) };
    assert!(off.shows_ui());
    let dev = Args { lang: None, dev: Some(true), test: None };
    assert!(!dev.shows_ui());
}
