use heif_convert::logging::{configure, enabled, level_name, log_line, Level, LevelFilter};

#[test]
fn levels_follow_the_flags() {
    assert_eq!(configure(false, false), LevelFilter::Warn);
    assert_eq!(configure(true, false), LevelFilter::Info);
    assert_eq!(configure(false, true), LevelFilter::Debug);
    assert_eq!(configure(true, true), LevelFilter::Debug);
}

#[test]
fn filters_let_more_severe_records_through() {
    assert!(enabled(Level::Error, LevelFilter::Warn));
    assert!(enabled(Level::Warn, LevelFilter::Warn));
    assert!(!enabled(Level::Info, LevelFilter::Warn));
    assert!(enabled(Level::Debug, LevelFilter::Debug));
    assert!(!enabled(Level::Trace, LevelFilter::Debug));
    assert!(!enabled(Level::Error, LevelFilter::Off));
    assert!(enabled(Level::Trace, LevelFilter::Trace));
}

#[test]
fn level_names_are_pythons() {
    assert_eq!(level_name(Level::Error), "ERROR");
    assert_eq!(level_name(Level::Warn), "WARNING");
    assert_eq!(level_name(Level::Info), "INFO");
    assert_eq!(level_name(Level::Debug), "DEBUG");
    assert_eq!(level_name(Level::Trace), "DEBUG");
}

#[test]
fn log_lines_have_the_python_layout() {
    assert_eq!(
        log_line("2024-01-02 03:04:05,678", Level::Info, "main.rs", 42, "Reading /x.heic"),
        "2024-01-02 03:04:05,678 [INFO] main.rs:42 - Reading /x.heic"
    );
    assert_eq!(log_line("t", Level::Warn, "unknown", 0, ""), "t [WARNING] unknown:0 - ");
}
