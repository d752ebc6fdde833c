use afrim_engine::Config;

#[test]
fn core_section_sets_the_values() {
    let config = Config::new(Some((Some(32), None, Some(true))));
    assert_eq!(config.buffer_size, Some(32));
    assert_eq!(config.page_size, None);
    assert_eq!(config.auto_commit, Some(true));
}

#[test]
fn missing_core_section_sets_nothing() {
    assert_eq!(
        Config::new(None),
        Config { buffer_size: None, page_size: None, auto_commit: None }
    );
}
