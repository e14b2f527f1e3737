use minigrep::Config;
use minigrep::ConfigError;

#[test]
fn config_failure() {
    let a = String::from("a");
    let b = String::from("b");
    let test_args = vec![a, b];
    match Config::new(&test_args, false) {
        Ok(_) => assert!(false, "Config constructor accepts failure"),
        Err(_) => assert!(true),
    }
}

#[test]
fn config_too_short_two_args() {
    let args = vec![String::from("prog"), String::from("a")];
    assert_eq!(
        Config::new(&args, false),
        Err(ConfigError::InsufficientArguments)
    );
    assert_eq!(
        Config::new(&args, true),
        Err(ConfigError::InsufficientArguments)
    );
}

#[test]
fn config_too_short_empty_and_one() {
    let empty: Vec<String> = vec![];
    assert_eq!(
        Config::new(&empty, false),
        Err(ConfigError::InsufficientArguments)
    );
    let one = vec![String::from("prog")];
    assert_eq!(
        Config::new(&one, true),
        Err(ConfigError::InsufficientArguments)
    );
}

#[test]
fn config_captures_query_and_filename() {
    let args = vec![
        String::from("prog"),
        String::from("needle"),
        String::from("haystack.txt"),
    ];
    let config = Config::new(&args, false).unwrap();
    assert_eq!(config.query, "needle");
    assert_eq!(config.filename, "haystack.txt");
    assert!(config.case_sensitive);
}

#[test]
fn config_override_forces_case_insensitive() {
    let args = vec![
        String::from("prog"),
        String::from("q"),
        String::from("f.txt"),
    ];
    let config = Config::new(&args, true).unwrap();
    assert!(!config.case_sensitive);
}

#[test]
fn config_ignores_extra_arguments() {
    let args = vec![
        String::from("prog"),
        String::from("q"),
        String::from("f.txt"),
        String::from("extra"),
        String::from("more"),
    ];
    let config = Config::new(&args, false).unwrap();
    assert_eq!(config.query, "q");
    assert_eq!(config.filename, "f.txt");
}
