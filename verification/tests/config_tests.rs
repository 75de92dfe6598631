use minigrep::Config;
use minigrep::ConfigError;

#[test]
fn build_two_configs_should_be_equal() {
    let args1: Vec<String> = vec![
        "ignore_element_1".to_string(),
        "query".to_string(),
        "file_path".to_string(),
    ];
    let config1 = Config::build(&args1, false).unwrap();

    let args2: Vec<String> = vec![
        "ignore_element_2".to_string(),
        "query".to_string(),
        "file_path".to_string(),
    ];
    let config2 = Config::build(&args2, false).unwrap();

    assert_eq!(config1, config2);
}

#[test]
fn build_config_should_be_correct() {
    let query: String = "query".to_string();
    let file_path = "file_path".to_string();

    let args1: Vec<String> = vec!["ignore_element_1".to_string(), query.clone(), file_path.clone()];
    let config1 = Config::build(&args1, false).unwrap();

    assert_eq!(config1.query, query);
    assert_eq!(config1.file_path, file_path);
}

#[test]
fn build_with_no_positional_arguments_fails() {
    let args: Vec<String> = vec!["x".to_string()];
    assert_eq!(Config::build(&args, false), Err(ConfigError::MissingArgument));
}

#[test]
fn build_with_one_positional_argument_fails() {
    let args: Vec<String> = vec!["x".to_string(), "only_one".to_string()];
    assert_eq!(Config::build(&args, false), Err(ConfigError::MissingArgument));
}

#[test]
fn build_keeps_the_case_toggle() {
    let args: Vec<String> = vec!["x".to_string(), "q".to_string(), "f".to_string()];
    let sensitive = Config::build(&args, false).unwrap();
    let insensitive = Config::build(&args, true).unwrap();
    assert!(!sensitive.ignore_case);
    assert!(insensitive.ignore_case);
}
