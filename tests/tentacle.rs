use logtopus::tentacle::{
    ConfigField, Tentacle, TentacleClient, TentacleConfigError, TentacleInfo, TentacleLogLine,
};
use std::collections::HashMap;
use std::sync::Arc;

fn info(name: &str, host: &str, port: i64, protocol: &str) -> TentacleInfo {
    TentacleInfo {
        name: name.to_string(),
        host: host.to_string(),
        port,
        protocol: protocol.to_string(),
    }
}

fn text(s: &str) -> ConfigField<String> {
    ConfigField::Given(s.to_string())
}

fn table(entries: Vec<(&str, config::Value)>) -> config::Value {
    let mut map: HashMap<String, config::Value> = HashMap::new();
    for (k, v) in entries {
        map.insert(k.to_string(), v);
    }
    config::Value::from(map)
}

#[test]
fn uri_joins_protocol_host_and_port() {
    assert_eq!("http://server-1:8080", info("a", "server-1", 8080, "http").uri());
    assert_eq!("https://h:-1", info("a", "h", -1, "https").uri());
    assert_eq!("http://h:0", info("a", "h", 0, "http").uri());
    assert_eq!(
        "http://h:-9223372036854775808",
        info("a", "h", i64::MIN, "http").uri()
    );
}

#[test]
fn content_url_quotes_the_id_and_adds_the_filter() {
    let t = info("a", "server-1", 8080, "http");
    assert_eq!(
        "http://server-1:8080/api/v1/sources/system%20syslog%2Fx/content?from_ms=42&loglevels=ERROR,WARN",
        t.content_url("system syslog/x", 42, &Some("ERROR,WARN".to_string()))
    );
    assert_eq!(
        "http://server-1:8080/api/v1/sources/syslog/content?from_ms=0",
        t.content_url("syslog", 0, &None)
    );
}

#[test]
fn local_content_url() {
    assert_eq!(
        "http://localhost:8080/api/v1/sources/%2Fvar%2Flog%2Fsyslog/content",
        Tentacle::content_url("/var/log/syslog")
    );
}

#[test]
fn fields_take_their_defaults() {
    let t = TentacleClient::tentacle_from_fields(
        text("server-1"),
        ConfigField::Missing,
        ConfigField::Missing,
        ConfigField::Missing,
    )
    .unwrap();
    assert_eq!(info("server-1", "server-1", 8080, "http"), t);
    let t = TentacleClient::tentacle_from_fields(
        text("server-2"),
        ConfigField::Given(9000),
        text("https"),
        text("two"),
    )
    .unwrap();
    assert_eq!(info("two", "server-2", 9000, "https"), t);
}

#[test]
fn missing_host_is_reported_as_such() {
    let r = TentacleClient::tentacle_from_fields(
        ConfigField::Missing,
        ConfigField::Given(1),
        text("http"),
        ConfigField::Missing,
    );
    assert!(matches!(r, Err(TentacleConfigError::NoHostSpecified)));
    let r = TentacleClient::parse_tentacle(table(vec![("port", config::Value::from(9000i64))]));
    assert!(matches!(r, Err(TentacleConfigError::NoHostSpecified)));
}

#[test]
fn each_bad_field_has_its_error() {
    let r = TentacleClient::tentacle_from_fields(
        ConfigField::Invalid,
        ConfigField::Invalid,
        ConfigField::Missing,
        ConfigField::Missing,
    );
    assert!(matches!(r, Err(TentacleConfigError::IllegalHostError)));
    let r = TentacleClient::tentacle_from_fields(
        text("h"),
        ConfigField::Invalid,
        ConfigField::Invalid,
        ConfigField::Missing,
    );
    assert!(matches!(r, Err(TentacleConfigError::IllegalPortError)));
    let r = TentacleClient::tentacle_from_fields(
        text("h"),
        ConfigField::Missing,
        ConfigField::Invalid,
        ConfigField::Invalid,
    );
    assert!(matches!(r, Err(TentacleConfigError::IllegalProtocolError)));
    let r = TentacleClient::tentacle_from_fields(
        text("h"),
        ConfigField::Missing,
        ConfigField::Missing,
        ConfigField::Invalid,
    );
    assert!(matches!(r, Err(TentacleConfigError::IllegalAliasError)));
}

#[test]
fn parse_tentacle_reads_a_table() {
    let v = table(vec![
        ("host", config::Value::from("server-3")),
        ("port", config::Value::from(8181i64)),
        ("alias", config::Value::from("three")),
    ]);
    assert_eq!(
        info("three", "server-3", 8181, "http"),
        TentacleClient::parse_tentacle(v).unwrap()
    );
    let v = table(vec![
        ("host", config::Value::from("server-3")),
        ("port", config::Value::from(vec![1i64, 2])),
    ]);
    assert!(matches!(
        TentacleClient::parse_tentacle(v),
        Err(TentacleConfigError::IllegalPortError)
    ));
    let r = TentacleClient::parse_tentacle(config::Value::from("http://server-1:8080"));
    assert!(matches!(r, Err(TentacleConfigError::NoTableError)));
}

#[test]
fn client_from_settings() {
    let mut settings = config::Config::new();
    settings
        .merge(config::File::from_str(
            "tentacles:\n  - host: a\n  - host: b\n    port: 81\n    alias: bee\n",
            config::FileFormat::Yaml,
        ))
        .unwrap();
    let client = TentacleClient::from_settings(Arc::new(settings)).unwrap();
    assert_eq!(
        &vec![info("a", "a", 8080, "http"), info("bee", "b", 81, "http")],
        client.tentacles()
    );
    let urls = client.content_urls("syslog", 5, &None);
    assert_eq!(
        vec![
            "http://a:8080/api/v1/sources/syslog/content?from_ms=5".to_string(),
            "http://b:81/api/v1/sources/syslog/content?from_ms=5".to_string(),
        ],
        urls
    );
    let mut bad = config::Config::new();
    bad.merge(config::File::from_str(
        "tentacles:\n  - host: a\n  - port: 81\n  - host: c\n    port: [1]\n",
        config::FileFormat::Yaml,
    ))
    .unwrap();
    let r = TentacleClient::from_settings(Arc::new(bad));
    assert!(matches!(r, Err(TentacleConfigError::NoHostSpecified)));
    let r = TentacleClient::from_settings(Arc::new(config::Config::new()));
    assert!(matches!(r, Err(TentacleConfigError::NoTentacleList)));
}

#[test]
fn first_bad_entry_decides_the_error() {
    let r = TentacleClient::from_entries(vec![
        Ok(info("a", "a", 1, "http")),
        Err(TentacleConfigError::IllegalPortError),
        Err(TentacleConfigError::NoHostSpecified),
    ]);
    assert!(matches!(r, Err(TentacleConfigError::IllegalPortError)));
    let c = TentacleClient::from_entries(vec![Ok(info("a", "a", 1, "http"))]).unwrap();
    assert_eq!(&vec![info("a", "a", 1, "http")], c.tentacles());
}

#[test]
fn record_becomes_a_tagged_line() {
    let record = TentacleLogLine {
        timestamp: 12,
        message: "hello".to_string(),
        loglevel: Some("INFO".to_string()),
    };
    let line = record.into_log_line(&"syslog".to_string(), &"node1".to_string());
    assert_eq!(12, line.timestamp);
    assert_eq!("hello", line.message);
    assert_eq!(Some("INFO".to_string()), line.loglevel);
    assert_eq!("syslog", line.id);
    assert_eq!("node1", line.source);
}
