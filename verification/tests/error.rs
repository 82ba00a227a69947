use freminal::error::format_error_chain;

#[test]
fn error_without_sources_is_its_message() {
    assert_eq!(format_error_chain("no such file", &vec![]), "no such file");
}

#[test]
fn error_with_sources_lists_each_after_caused_by() {
    let sources = vec!["read failed".to_string(), "pipe closed".to_string()];
    assert_eq!(
        format_error_chain("failed to run terminal emulator", &sources),
        "failed to run terminal emulator\nCaused by:\nread failed\npipe closed"
    );
}

#[test]
fn error_with_one_source() {
    let sources = vec!["inner".to_string()];
    assert_eq!(format_error_chain("outer", &sources), "outer\nCaused by:\ninner");
}
