use leaderboard::debug_config::{get_level, get_output, level_from_str, DebugOut, LogLevel};

#[test]
fn test_get_level() {
    let args = vec![
        String::from("program"),
        String::from("-v"),
        String::from("debug"),
    ];
    assert_eq!(get_level(&args), LogLevel::Debug);
}

#[test]
fn test_get_output() {
    let args = vec![
        String::from("program"),
        String::from("-o"),
        String::from("stdout"),
    ];
    assert_eq!(get_output(&args), DebugOut::Stdout);
}

#[test]
fn test_get_output_default() {
    let args = vec![String::from("program")];
    assert_eq!(get_output(&args), DebugOut::Syslog);
}

#[test]
fn test_get_output_bad() {
    let args = vec![
        String::from("program"),
        String::from("-o"),
        String::from("bad"),
    ];
    assert_eq!(get_output(&args), DebugOut::Syslog);
}

#[test]
fn test_get_level_default() {
    let args = vec![String::from("program")];
    assert_eq!(get_level(&args), LogLevel::Info);
}

#[test]
fn test_level_names() {
    assert_eq!(level_from_str("off"), Some(LogLevel::Off));
    assert_eq!(level_from_str("ERROR"), Some(LogLevel::Error));
    assert_eq!(level_from_str("Warn"), Some(LogLevel::Warn));
    assert_eq!(level_from_str("info"), Some(LogLevel::Info));
    assert_eq!(level_from_str("DeBuG"), Some(LogLevel::Debug));
    assert_eq!(level_from_str("trace"), Some(LogLevel::Trace));
    assert_eq!(level_from_str("loud"), None);
}

#[test]
fn test_output_from_str() {
    assert_eq!(DebugOut::from_str("STDOUT"), Ok(DebugOut::Stdout));
    assert_eq!(DebugOut::from_str("syslog"), Ok(DebugOut::Syslog));
    assert_eq!(DebugOut::from_str("journal"), Err(()));
}

#[test]
fn test_output_text() {
    assert_eq!(DebugOut::Stdout.text(), "stdout".to_string());
    assert_eq!(DebugOut::Syslog.text(), "syslog".to_string());
}

#[test]
fn test_get_level_later_flag_wins_after_bad_value() {
    let args = vec![
        String::from("-v"),
        String::from("shout"),
        String::from("-v"),
        String::from("trace"),
    ];
    assert_eq!(get_level(&args), LogLevel::Trace);
}
