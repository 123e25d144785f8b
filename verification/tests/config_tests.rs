use leaderboard::config::{Flag, ParseError, ReadConfig, RunMode, WriteConfig};

#[test]
fn test_read_config() {
    let args = vec![
        String::from("-t"),
        String::from("table"),
        String::from("-s"),
        String::from("sort"),
        String::from("-n"),
        String::from("1"),
    ];
    let config = ReadConfig::from_args(&args).expect("Error parsing args");
    assert_eq!(config.table, "table");
    assert_eq!(config.sort, "sort");
    assert_eq!(config.limit, Some(1));
}

#[test]
fn test_read_config_missing_table() {
    let args = vec![
        String::from("-s"),
        String::from("sort"),
        String::from("-n"),
        String::from("1"),
    ];
    let config = ReadConfig::from_args(&args);
    assert!(config.is_err());
    assert_eq!(
        config.err().unwrap().message(),
        "-t must be provided".to_string()
    );
}

#[test]
fn test_write_config() {
    let args = vec![
        String::from("-t"),
        String::from("table"),
        String::from("-n"),
        String::from("name"),
        String::from("-c"),
        String::from("command"),
        String::from("-r"),
        String::from("1"),
    ];
    let config = WriteConfig::from_args(&args).expect("Error parsing args");
    assert_eq!(config.table, "table");
    assert_eq!(config.name, "name");
    assert_eq!(config.command, "command");
    assert_eq!(config.time_ns, 1);
}

#[test]
fn test_write_config_missing_table() {
    let args = vec![
        String::from("-n"),
        String::from("name"),
        String::from("-c"),
        String::from("command"),
        String::from("-r"),
        String::from("1"),
    ];
    let config = WriteConfig::from_args(&args);
    assert!(config.is_err());
    assert_eq!(
        config.err().unwrap().message(),
        "-t must be provided".to_string()
    );
}

#[test]
fn test_write_config_missing_name() {
    let args = vec![
        String::from("-t"),
        String::from("table"),
        String::from("-c"),
        String::from("command"),
        String::from("-r"),
        String::from("1"),
    ];
    let config = WriteConfig::from_args(&args);
    assert!(config.is_err());
    assert_eq!(
        config.err().unwrap().message(),
        "-n must be provided".to_string()
    );
}

#[test]
fn test_write_config_missing_command() {
    let args = vec![
        String::from("-t"),
        String::from("table"),
        String::from("-n"),
        String::from("name"),
        String::from("-r"),
        String::from("1"),
    ];
    let config = WriteConfig::from_args(&args);
    assert!(config.is_err());
    assert_eq!(
        config.err().unwrap().message(),
        "-c must be provided".to_string()
    );
}

#[test]
fn test_write_config_bad_time() {
    let args = vec![
        String::from("-t"),
        String::from("table"),
        String::from("-n"),
        String::from("name"),
        String::from("-c"),
        String::from("command"),
        String::from("-r"),
        String::from("soon"),
    ];
    let config = WriteConfig::from_args(&args);
    assert_eq!(config.err(), Some(ParseError::InvalidTimeNs));
    assert_eq!(
        ParseError::InvalidTimeNs.message(),
        "-r must be a integer".to_string()
    );
}

#[test]
fn test_write_config_missing_time() {
    let args = vec![
        String::from("-t"),
        String::from("table"),
        String::from("-n"),
        String::from("name"),
        String::from("-c"),
        String::from("command"),
    ];
    let config = WriteConfig::from_args(&args);
    assert_eq!(config.err(), Some(ParseError::MissingFlag(Flag::TimeNs)));
}

#[test]
fn test_write_config_starved_flag() {
    let args = vec![String::from("-t"), String::from("table"), String::from("-c")];
    let config = WriteConfig::from_args(&args);
    assert_eq!(config.err(), Some(ParseError::MissingValue(Flag::Command)));
    assert_eq!(
        ParseError::MissingValue(Flag::Command).message(),
        "-c must provide a string".to_string()
    );
}

#[test]
fn test_read_config_defaults() {
    let args = vec![String::from("-t"), String::from("scores")];
    let config = ReadConfig::from_args(&args).expect("Error parsing args");
    assert_eq!(config.table, "scores");
    assert_eq!(config.sort, "time_ns");
    assert_eq!(config.limit, None);
}

#[test]
fn test_read_config_bad_limit_left_unset() {
    let args = vec![
        String::from("-t"),
        String::from("scores"),
        String::from("-n"),
        String::from("many"),
    ];
    let config = ReadConfig::from_args(&args).expect("Error parsing args");
    assert_eq!(config.limit, None);
}

#[test]
fn test_read_config_last_flag_wins() {
    let args = vec![
        String::from("-t"),
        String::from("first"),
        String::from("-t"),
        String::from("second"),
    ];
    let config = ReadConfig::from_args(&args).expect("Error parsing args");
    assert_eq!(config.table, "second");
}

#[test]
fn test_run_mode_selects_write() {
    let args = vec![
        String::from("-t"),
        String::from("table"),
        String::from("-n"),
        String::from("name"),
        String::from("-c"),
        String::from("command"),
        String::from("-r"),
        String::from("42"),
    ];
    let mode = RunMode::from_args(&args).expect("Error parsing args");
    match mode {
        RunMode::Update(w) => {
            assert_eq!(w.name, "name");
            assert_eq!(w.time_ns, 42);
        }
        RunMode::Read(_) => panic!("expected a write request"),
    }
}

#[test]
fn test_run_mode_selects_read() {
    let args = vec![String::from("-t"), String::from("table")];
    let mode = RunMode::from_args(&args).expect("Error parsing args");
    match mode {
        RunMode::Read(c) => assert_eq!(c.table, "table"),
        RunMode::Update(_) => panic!("expected a read request"),
    }
}
