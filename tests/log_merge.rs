use logtopus::log_merge::{
    merge_streams, LogMerge, LogStreamError, MergePoll, SourcePoll,
};
use logtopus::tentacle::LogLine;

fn line_at(timestamp: i64, line: &str) -> LogLine {
    LogLine {
        timestamp: timestamp,
        message: line.to_string(),
        loglevel: None,
        id: String::from("system-syslog"),
        source: String::from("node1"),
    }
}

fn ok_lines(lines: Vec<LogLine>) -> Vec<Result<Option<LogLine>, LogStreamError>> {
    lines.into_iter().map(|l| Ok(Some(l))).collect()
}

#[test]
fn test_new() {
    let merge = LogMerge::new(2);
    assert!(merge.num_sources() == 2);
    assert!(merge.needs_poll(0) && merge.needs_poll(1));
}

#[test]
fn empty_streams() {
    let (result, outcome) = merge_streams(vec![vec![]]);
    assert!(outcome.is_ok());
    assert!(result.is_empty());
}

#[test]
fn test_single_stream() {
    let l1 = line_at(0, "s1");
    let l2 = line_at(1, "s1");
    let (result, outcome) = merge_streams(vec![ok_lines(vec![l1.clone(), l2.clone()])]);
    assert!(outcome.is_ok());
    assert_eq!(vec![l1, l2], result);
}

#[test]
fn test_multiple_streams() {
    let l11 = line_at(100, "s11");
    let l12 = line_at(300, "s12");
    let l13 = line_at(520, "s13");
    let l21 = line_at(90, "s21");
    let l22 = line_at(430, "s22");
    let l31 = line_at(120, "s31");
    let l32 = line_at(120, "s32");
    let l33 = line_at(320, "s33");
    let l34 = line_at(520, "s34");
    let s1 = ok_lines(vec![l11.clone(), l12.clone(), l13.clone()]);
    let s2 = ok_lines(vec![l21.clone(), l22.clone()]);
    let s3 = ok_lines(vec![l31.clone(), l32.clone(), l33.clone(), l34.clone()]);
    let (result, outcome) = merge_streams(vec![s1, s2, s3]);
    assert!(outcome.is_ok());
    assert_eq!(vec![l21, l11, l31, l32, l12, l33, l22, l13, l34], result);
}

#[test]
fn merge_of_no_sources_ends_at_once() {
    let (result, outcome) = merge_streams(vec![]);
    assert!(outcome.is_ok());
    assert!(result.is_empty());
    let mut merge = LogMerge::new(0);
    assert!(matches!(merge.poll(), Ok(MergePoll::Exhausted)));
}

#[test]
fn failing_source_stops_after_two_lines() {
    let source = vec![
        Ok(Some(line_at(1, "a"))),
        Ok(Some(line_at(2, "b"))),
        Err(LogStreamError::DefaultError),
        Ok(Some(line_at(4, "d"))),
        Ok(Some(line_at(5, "e"))),
    ];
    let (result, outcome) = merge_streams(vec![source]);
    assert_eq!(vec![line_at(1, "a"), line_at(2, "b")], result);
    assert_eq!(Err(LogStreamError::DefaultError), outcome);
}

#[test]
fn failure_ends_merge_despite_buffered_lines() {
    let healthy = ok_lines(vec![line_at(10, "h1"), line_at(20, "h2"), line_at(30, "h3")]);
    let failing = vec![Ok(Some(line_at(5, "f1"))), Err(LogStreamError::DefaultError)];
    let (result, outcome) = merge_streams(vec![healthy, failing]);
    assert_eq!(vec![line_at(5, "f1")], result);
    assert!(outcome.is_err());
}

#[test]
fn merge_output_is_ordered_and_complete() {
    let s1 = ok_lines(vec![line_at(1, "a"), line_at(4, "b"), line_at(9, "c")]);
    let s2 = ok_lines(vec![line_at(2, "d"), line_at(3, "e"), line_at(10, "f")]);
    let s3 = ok_lines(vec![]);
    let s4 = ok_lines(vec![line_at(0, "g")]);
    let (result, outcome) = merge_streams(vec![s1, s2, s3, s4]);
    assert!(outcome.is_ok());
    assert_eq!(7, result.len());
    let stamps: Vec<i64> = result.iter().map(|l| l.timestamp).collect();
    assert_eq!(vec![0, 1, 2, 3, 4, 9, 10], stamps);
}

#[test]
fn not_ready_source_holds_back_emission() {
    let mut merge = LogMerge::new(2);
    assert!(merge.poll_source(0, SourcePoll::Line(line_at(50, "early"))).is_ok());
    assert!(merge.poll_source(1, SourcePoll::NotReady).is_ok());
    assert!(matches!(merge.poll(), Ok(MergePoll::NotReady)));
    assert!(!merge.needs_poll(0));
    assert!(merge.needs_poll(1));
    assert!(merge.poll_source(1, SourcePoll::Line(line_at(40, "late"))).is_ok());
    match merge.poll() {
        Ok(MergePoll::Line(l)) => assert_eq!(line_at(40, "late"), l),
        other => panic!("unexpected {:?}", other),
    }
    assert!(merge.needs_poll(1));
    assert!(merge.poll_source(1, SourcePoll::Exhausted).is_ok());
    match merge.poll() {
        Ok(MergePoll::Line(l)) => assert_eq!(line_at(50, "early"), l),
        other => panic!("unexpected {:?}", other),
    }
    assert!(merge.poll_source(0, SourcePoll::Exhausted).is_ok());
    assert!(matches!(merge.poll(), Ok(MergePoll::Exhausted)));
}

#[test]
fn equal_timestamps_leave_in_arrival_order() {
    let mut merge = LogMerge::new(3);
    assert!(merge.poll_source(2, SourcePoll::Line(line_at(7, "first"))).is_ok());
    assert!(merge.poll_source(0, SourcePoll::Line(line_at(7, "second"))).is_ok());
    assert!(merge.poll_source(1, SourcePoll::Line(line_at(7, "third"))).is_ok());
    let mut order = Vec::new();
    for _ in 0..3 {
        match merge.poll() {
            Ok(MergePoll::Line(l)) => order.push(l.message),
            other => panic!("unexpected {:?}", other),
        }
        for s in 0..3 {
            if merge.needs_poll(s) {
                assert!(merge.poll_source(s, SourcePoll::Exhausted).is_ok());
            }
        }
    }
    assert_eq!(vec!["first", "second", "third"], order);
}

#[test]
fn failed_merge_reports_only_the_error() {
    let mut merge = LogMerge::new(2);
    assert!(merge.poll_source(0, SourcePoll::Line(line_at(1, "kept"))).is_ok());
    assert_eq!(
        Err(LogStreamError::DefaultError),
        merge.poll_source(1, SourcePoll::Failed(LogStreamError::DefaultError))
    );
    assert!(!merge.needs_poll(1));
    assert!(matches!(merge.poll(), Err(LogStreamError::DefaultError)));
    assert!(matches!(merge.poll(), Err(LogStreamError::DefaultError)));
}

#[test]
fn single_source_passes_through_unchanged() {
    let lines = vec![line_at(3, "x"), line_at(3, "y"), line_at(8, "z")];
    let (result, outcome) = merge_streams(vec![ok_lines(lines.clone())]);
    assert!(outcome.is_ok());
    assert_eq!(lines, result);
}

#[test]
fn stream_error_message() {
    assert_eq!("Failed stream.", LogStreamError::DefaultError.message());
}

#[test]
fn not_yet_answers_delay_but_do_not_reorder() {
    let s1 = vec![
        Ok(Some(line_at(10, "a"))),
        Ok(None),
        Ok(None),
        Ok(Some(line_at(30, "b"))),
    ];
    let s2 = vec![Ok(None), Ok(Some(line_at(5, "c"))), Ok(None), Ok(Some(line_at(40, "d")))];
    let (result, outcome) = merge_streams(vec![s1, s2]);
    assert!(outcome.is_ok());
    assert_eq!(
        vec![line_at(5, "c"), line_at(10, "a"), line_at(30, "b"), line_at(40, "d")],
        result
    );
}
