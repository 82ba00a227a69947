use freminal::log::Level;
use std::str::FromStr;

#[test]
fn level_names_ignore_case() {
    assert_eq!(Level::from_str("debug"), Ok(Level::Debug));
    assert_eq!(Level::from_str("INFO"), Ok(Level::Info));
    assert_eq!(Level::from_str("Warn"), Ok(Level::Warn));
    assert_eq!(Level::from_str("eRRoR"), Ok(Level::Error));
    assert_eq!(Level::from_str("trace"), Ok(Level::Trace));
    assert_eq!(Level::from_str("verbose"), Err(()));
    assert_eq!(Level::from_str(""), Err(()));
    assert_eq!(Level::from_lowercase_name("DEBUG"), Err(()));
}

#[test]
fn level_tags_are_colored() {
    assert_eq!(Level::Debug.log_str(), "\x1b[32;1mDEBUG\x1b[m");
    assert_eq!(Level::Info.log_str(), "\x1b[34;1m INFO\x1b[m");
    assert_eq!(Level::Warn.log_str(), "\x1b[33;1m WARN\x1b[m");
    assert_eq!(Level::Error.log_str(), "\x1b[91;1mERROR\x1b[m");
    assert_eq!(Level::Trace.log_str(), "\x1b[35;1mTRACE\x1b[m");
}

#[test]
fn levels_are_ordered() {
    assert!(Level::Debug < Level::Info);
    assert!(Level::Info < Level::Warn);
    assert!(Level::Warn < Level::Error);
    assert!(Level::Error < Level::Trace);
}
