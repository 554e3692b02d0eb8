use logtopus::tail::{LineChannel, LineSplitter, Received, TailError};

#[test]
fn slow_consumer_gets_every_line_in_order() {
    let lines: Vec<Vec<u8>> = (0..10).map(|i| format!("line {}", i).into_bytes()).collect();
    let mut channel = LineChannel::new(2);
    let mut received: Vec<Vec<u8>> = Vec::new();
    let mut blocked = 0;
    for line in lines.iter() {
        let mut pending = line.clone();
        loop {
            match channel.try_send(pending) {
                Ok(()) => break,
                Err(back) => {
                    assert_eq!(2, channel.len());
                    blocked += 1;
                    pending = back;
                    match channel.recv() {
                        Received::Line(l) => received.push(l),
                        other => panic!("unexpected {:?}", other),
                    }
                }
            }
        }
        assert!(channel.len() <= 2);
    }
    channel.close();
    loop {
        match channel.recv() {
            Received::Line(l) => received.push(l),
            Received::Closed => break,
            other => panic!("unexpected {:?}", other),
        }
    }
    assert_eq!(lines, received);
    assert_eq!(8, blocked);
}

#[test]
fn full_channel_refuses_without_growing() {
    let mut channel = LineChannel::new(1);
    assert_eq!(1, channel.capacity());
    assert!(channel.try_send(b"a".to_vec()).is_ok());
    assert!(channel.is_full());
    assert_eq!(Err(b"b".to_vec()), channel.try_send(b"b".to_vec()));
    assert_eq!(1, channel.len());
}

#[test]
fn empty_open_channel_is_pending() {
    let mut channel = LineChannel::new(3);
    assert!(matches!(channel.recv(), Received::Pending));
}

#[test]
fn failure_comes_after_the_sent_lines() {
    let mut channel = LineChannel::new(2);
    assert!(channel.try_send(b"x".to_vec()).is_ok());
    channel.fail(TailError::ReadFailed);
    assert!(matches!(channel.recv(), Received::Line(ref l) if l == b"x"));
    assert!(matches!(channel.recv(), Received::Failed(TailError::ReadFailed)));
}

#[test]
fn splitter_cuts_lines_across_chunks() {
    let mut splitter = LineSplitter::new(8);
    let lines = splitter.feed(&b"ab\ncd".to_vec()).unwrap();
    assert_eq!(vec![b"ab".to_vec()], lines);
    let lines = splitter.feed(&b"e\n\nfg".to_vec()).unwrap();
    assert_eq!(vec![b"cde".to_vec(), b"".to_vec()], lines);
    assert_eq!(Some(b"fg".to_vec()), splitter.finish());
}

#[test]
fn splitter_ends_cleanly_after_newline() {
    let mut splitter = LineSplitter::new(4);
    assert_eq!(vec![b"abcd".to_vec()], splitter.feed(&b"abcd\n".to_vec()).unwrap());
    assert_eq!(None, splitter.finish());
}

#[test]
fn splitter_rejects_long_lines() {
    let mut splitter = LineSplitter::new(3);
    assert_eq!(Err(TailError::LineTooLong), splitter.feed(&b"ab\nabcd".to_vec()));
}
