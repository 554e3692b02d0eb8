use logtopus::server::{text_line, text_line_with, RENDERABLE_MILLIS};
use logtopus::tentacle::LogLine;

fn line(timestamp: i64, message: &str) -> LogLine {
    LogLine {
        timestamp,
        message: message.to_string(),
        loglevel: None,
        id: "syslog".to_string(),
        source: "node1".to_string(),
    }
}

#[test]
fn text_line_renders_time_and_message() {
    assert_eq!(
        Some("00:00:00.000 01-01-1970 boot\n".to_string()),
        text_line(&line(0, "boot"))
    );
    assert_eq!(
        Some("23:31:30.123 13-02-2009 hello\n".to_string()),
        text_line(&line(1234567890123, "hello"))
    );
}

#[test]
fn text_line_with_given_stamp() {
    assert_eq!("T m\n", text_line_with("T", &line(5, "m")));
}

#[test]
fn text_line_renders_far_times() {
    assert!(text_line(&line(RENDERABLE_MILLIS, "late")).is_some());
    assert!(text_line(&line(-RENDERABLE_MILLIS, "early")).is_some());
    assert_eq!(None, text_line(&line(i64::MAX, "never")));
}
