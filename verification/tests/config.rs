use runbench::config::{parse_i32, resolve_config, ConfigError};

fn argv(items: &[&str]) -> Vec<String> {
    items.iter().map(|s| s.to_string()).collect()
}

#[test]
fn defaults_are_five_runs_and_no_echo() {
    let config = resolve_config(&argv(&["bench"]), "echo hi").unwrap();
    assert_eq!(config.runs, 5);
    assert!(!config.output);
    assert_eq!(config.command, "echo");
    assert_eq!(config.args, vec!["hi".to_string()]);
}

#[test]
fn runs_flag_sets_the_run_count() {
    let config = resolve_config(&argv(&["bench", "-runs", "10"]), "echo hi").unwrap();
    assert_eq!(config.runs, 10);
}

#[test]
fn runs_flag_with_non_number_is_a_configuration_error() {
    let result = resolve_config(&argv(&["bench", "-runs", "notanumber"]), "echo hi");
    assert_eq!(result.unwrap_err(), ConfigError::InvalidRunsValue);
}

#[test]
fn runs_flag_without_value_is_a_configuration_error() {
    let result = resolve_config(&argv(&["bench", "-runs"]), "echo hi");
    assert_eq!(result.unwrap_err(), ConfigError::MissingRunsValue);
}

#[test]
fn output_flag_enables_echo() {
    let config = resolve_config(&argv(&["bench", "-output"]), "echo hi").unwrap();
    assert!(config.output);
}

#[test]
fn empty_command_string_is_a_configuration_error() {
    let result = resolve_config(&argv(&["bench"]), "");
    assert_eq!(result.unwrap_err(), ConfigError::MissingCommand);
}

#[test]
fn runs_error_is_reported_before_a_missing_command() {
    let result = resolve_config(&argv(&["bench", "-runs", "x"]), "");
    assert_eq!(result.unwrap_err(), ConfigError::InvalidRunsValue);
}

#[test]
fn negative_run_count_wraps_like_a_cast() {
    let config = resolve_config(&argv(&["bench", "-runs", "-1"]), "echo hi").unwrap();
    assert_eq!(config.runs, u32::MAX);
}

#[test]
fn first_runs_flag_occurrence_wins() {
    let config = resolve_config(&argv(&["bench", "-runs", "3", "-runs", "9"]), "echo hi").unwrap();
    assert_eq!(config.runs, 3);
}

#[test]
fn quoted_argument_reaches_the_configuration() {
    let config = resolve_config(&argv(&["bench"]), "run \"first arg\" second").unwrap();
    assert_eq!(config.command, "run");
    assert_eq!(
        config.args,
        vec!["first arg".to_string(), "second".to_string()]
    );
}

#[test]
fn error_messages_describe_each_error() {
    assert_eq!(
        ConfigError::MissingRunsValue.message(),
        "The -runs flag should be used as follows: ... -runs <run count> ..."
    );
    assert_eq!(
        ConfigError::InvalidRunsValue.message(),
        "The -runs flag should be used as follows: ... -runs <number> ..."
    );
    assert_eq!(
        ConfigError::MissingCommand.message(),
        "No command was given, so there is nothing to run."
    );
}

#[test]
fn parse_i32_reads_plain_numbers() {
    assert_eq!(parse_i32("123"), Some(123));
    assert_eq!(parse_i32("0"), Some(0));
    assert_eq!(parse_i32("007"), Some(7));
}

#[test]
fn parse_i32_reads_signed_numbers() {
    assert_eq!(parse_i32("-45"), Some(-45));
    assert_eq!(parse_i32("+7"), Some(7));
}

#[test]
fn parse_i32_honors_the_i32_range() {
    assert_eq!(parse_i32("2147483647"), Some(i32::MAX));
    assert_eq!(parse_i32("2147483648"), None);
    assert_eq!(parse_i32("-2147483648"), Some(i32::MIN));
    assert_eq!(parse_i32("-2147483649"), None);
    assert_eq!(parse_i32("99999999999999999999"), None);
}

#[test]
fn parse_i32_rejects_malformed_text() {
    assert_eq!(parse_i32(""), None);
    assert_eq!(parse_i32("-"), None);
    assert_eq!(parse_i32("+"), None);
    assert_eq!(parse_i32("12a"), None);
    assert_eq!(parse_i32("a12"), None);
    assert_eq!(parse_i32("1 2"), None);
}
