use subtitle_translator::config::{Config, ConfigError};

#[test]
fn test_config() {
    let config = Config::from_json(
        r#"{"api_key": "SECRET-REDACTED", "api_base": "https://api.example.com/v1", "model": "gpt-4o-mini"}"#,
    )
    .unwrap();
    println!("{:?}", config);
    assert!(!config.api_key.is_empty());
}

#[test]
fn config_names_missing_member() {
    let r = Config::from_json(r#"{"api_key": "k", "model": "m"}"#);
    match r {
        Err(ConfigError::MissingField(name)) => assert_eq!(name, "api_base"),
        other => panic!("unexpected {:?}", other),
    }
    let r = Config::from_json(r#"{"api_key": 1, "api_base": "b", "model": "m"}"#);
    assert!(matches!(r, Err(ConfigError::MissingField(_))));
}

#[test]
fn config_rejects_non_json() {
    assert!(matches!(Config::from_json("api_key = 1"), Err(ConfigError::Json(_))));
}
