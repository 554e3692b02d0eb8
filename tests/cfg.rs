use logtopus::cfg::{log_filter, missing_file_message, DEFAULT_CONFIG, ENV_PREFIX};

fn default_settings() -> config::Config {
    let mut settings = config::Config::new();
    settings
        .merge(config::File::from_str(DEFAULT_CONFIG, config::FileFormat::Yaml))
        .unwrap();
    settings
        .merge(config::Environment::with_prefix(ENV_PREFIX))
        .unwrap();
    settings
}

#[test]
fn test_read_default_config() {
    let settings = default_settings();

    assert_eq!(8081, settings.get_int("http.bind.port").unwrap());
    assert_eq!("127.0.0.1", settings.get_str("http.bind.ip").unwrap());

    let tentacles: Vec<String> = settings
        .get_array("tentacles")
        .unwrap()
        .into_iter()
        .map(|v| v.into_str().unwrap())
        .collect();

    assert!(tentacles.is_empty());
}

#[test]
fn missing_config_file_message() {
    assert_eq!(
        "Configuration file no/such/settings.yml does not exist",
        missing_file_message("no/such/settings.yml")
    );
}

#[test]
fn log_filter_follows_verbosity() {
    assert_eq!("error", log_filter(0, &None));
    assert_eq!("warn", log_filter(1, &None));
    assert_eq!("info", log_filter(2, &None));
    assert_eq!("debug", log_filter(3, &None));
    assert_eq!("trace", log_filter(9, &None));
    assert_eq!("logtopus=info", log_filter(2, &Some("logtopus".to_string())));
}
