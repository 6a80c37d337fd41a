use river::kernel::syslog::{level_from_str, parse_log_filter, time, LevelFilter, LogFilter};

#[test]
fn ticks_are_seconds_and_milliseconds() {
    assert_eq!(time(12_345_678, 10_000_000), (1, 234));
    assert_eq!(time(0, 10_000_000), (0, 0));
}

#[test]
fn levels_have_names() {
    assert_eq!(level_from_str(b"off"), Some(LevelFilter::Off));
    assert_eq!(level_from_str(b"error"), Some(LevelFilter::Error));
    assert_eq!(level_from_str(b"warn"), Some(LevelFilter::Warn));
    assert_eq!(level_from_str(b"info"), Some(LevelFilter::Info));
    assert_eq!(level_from_str(b"debug"), Some(LevelFilter::Debug));
    assert_eq!(level_from_str(b"trace"), Some(LevelFilter::Trace));
    assert_eq!(level_from_str(b"Trace"), None);
    assert_eq!(LevelFilter::Trace.number(), 5);
}

#[test]
fn nothing_changes_without_a_filter() {
    let mut log = LogFilter::new();
    parse_log_filter(&mut log, None);
    assert!(log.enabled(0, LevelFilter::Info, b"river::trap"));
    assert!(!log.enabled(0, LevelFilter::Debug, b"river::trap"));
}

#[test]
fn parts_have_their_own_level() {
    let mut log = LogFilter::new();
    parse_log_filter(&mut log, Some(b"river::trap=trace,warn"));
    assert!(log.enabled(0, LevelFilter::Trace, b"river::trap::syscalls"));
    assert!(log.enabled(0, LevelFilter::Warn, b"river::sched"));
    assert!(!log.enabled(0, LevelFilter::Info, b"river::sched"));
}

#[test]
fn the_shortest_name_applies() {
    let mut log = LogFilter::new();
    parse_log_filter(&mut log, Some(b"river::trap=trace,river=error"));
    assert!(!log.enabled(0, LevelFilter::Trace, b"river::trap"));
    assert!(log.enabled(0, LevelFilter::Error, b"river::trap"));
}

#[test]
fn harts_are_ignored() {
    let mut log = LogFilter::new();
    parse_log_filter(&mut log, Some(b"ignore-harts=1"));
    assert!(log.enabled(0, LevelFilter::Info, b"x"));
    assert!(!log.enabled(1, LevelFilter::Info, b"x"));
    assert!(log.enabled(2, LevelFilter::Info, b"x"));
}

#[test]
fn bad_levels_are_skipped() {
    let mut log = LogFilter::new();
    parse_log_filter(&mut log, Some(b"river=loud"));
    assert!(log.enabled(0, LevelFilter::Info, b"river"));
    assert!(!log.enabled(0, LevelFilter::Debug, b"river"));
}
