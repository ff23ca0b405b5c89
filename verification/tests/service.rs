use dsh_desktop::service::{
    drain_stdout, line_event, ready_result, ready_url, spawn_service, started_service, wait_for_ready,
    DrainAction, DrainEvent, ReadyReply, ServiceError, ServiceHandle, READY_PREFIX,
    READY_TIMEOUT_MS,
};
use std::sync::mpsc;
use std::time::{Duration, Instant};

#[test]
fn ready_prefix_parses_url_line() {
    let line = "dsh web: http://127.0.0.1:51234 (LAN: http://192.168.1.5:51234)";
    let rest = line.strip_prefix(READY_PREFIX).unwrap();
    assert_eq!(rest.split_whitespace().next(), Some("http://127.0.0.1:51234"));
    assert_eq!(ready_url(line), Some("http://127.0.0.1:51234".to_string()));
}

#[test]
fn ready_timeout_reports() {
    let (_tx, rx) = mpsc::channel::<String>();
    let err = wait_for_ready(&rx, Duration::from_millis(50).as_millis() as u64).unwrap_err();
    assert!(matches!(err, ServiceError::ReadyTimeout { .. }));
    assert_eq!(err, ServiceError::ReadyTimeout { timeout_ms: 50 });
}

#[test]
fn wait_takes_at_least_the_timeout() {
    let (_tx, rx) = mpsc::channel::<String>();
    let start = Instant::now();
    assert!(wait_for_ready(&rx, 50).is_err());
    assert!(start.elapsed() >= Duration::from_millis(50));
}

#[test]
fn wait_takes_the_first_url() {
    let (tx, rx) = mpsc::channel::<String>();
    tx.send("http://127.0.0.1:31080".to_string()).unwrap();
    tx.send("http://127.0.0.1:1".to_string()).unwrap();
    assert_eq!(wait_for_ready(&rx, 5000), Ok("http://127.0.0.1:31080".to_string()));
}

#[test]
fn wait_without_a_sender_reports_an_exit() {
    let (tx, rx) = mpsc::channel::<String>();
    drop(tx);
    assert_eq!(wait_for_ready(&rx, 5000), Err(ServiceError::ExitedBeforeReady { code: None }));
}

#[test]
fn wait_without_time_takes_no_url() {
    let (tx, rx) = mpsc::channel::<String>();
    tx.send("http://127.0.0.1:31080".to_string()).unwrap();
    assert_eq!(wait_for_ready(&rx, 0), Err(ServiceError::ReadyTimeout { timeout_ms: 0 }));
}

#[test]
fn every_reply_has_its_result() {
    assert_eq!(ready_result(ReadyReply::Url("u".to_string())), Ok("u".to_string()));
    assert_eq!(
        ready_result(ReadyReply::TimedOut { after_ms: 7 }),
        Err(ServiceError::ReadyTimeout { timeout_ms: 7 })
    );
    assert_eq!(
        ready_result(ReadyReply::Disconnected),
        Err(ServiceError::ExitedBeforeReady { code: None })
    );
}

#[test]
fn read_bytes_become_events() {
    assert_eq!(line_event(b"".to_vec()), DrainEvent::Ended);
    assert_eq!(line_event(b"a\n".to_vec()), DrainEvent::Line("a\n".to_string()));
    assert_eq!(line_event("é越".as_bytes().to_vec()), DrainEvent::Line("é越".to_string()));
    assert_eq!(line_event(b"\xff\n".to_vec()), DrainEvent::Undecodable);
    assert_eq!(line_event(b"dsh web: a\xc3\n".to_vec()), DrainEvent::Undecodable);
    assert_eq!(line_event(b"\xed\xa0\x80".to_vec()), DrainEvent::Undecodable);
    assert_eq!(line_event(b"\xc0\x80".to_vec()), DrainEvent::Undecodable);
}

#[test]
fn the_drain_goes_on_past_an_undecodable_line() {
    let rx = drained(b"dsh web: http://127.0.0.1:31080\n\xff\nx\n");
    assert_eq!(rx.try_iter().collect::<Vec<_>>(), vec!["http://127.0.0.1:31080".to_string()]);
    let rx = drained(b"\xff\ndsh web: http://a\n");
    assert_eq!(wait_for_ready(&rx, 5000), Ok("http://a".to_string()));
}

/// Drains `text` into a channel, as the program does, and closes the channel.
fn drained(text: &[u8]) -> mpsc::Receiver<String> {
    let (tx, rx) = mpsc::channel::<String>();
    let mut lines = text.split_inclusive(|byte| *byte == b'\n');
    let mut action = DrainAction::ReadLine;
    loop {
        let event = match action {
            DrainAction::ReadLine => match lines.next() {
                Some(line) => line_event(line.to_vec()),
                None => line_event(Vec::new()),
            },
            DrainAction::SendUrl(url) => {
                tx.send(url).unwrap();
                DrainEvent::Sent
            }
            DrainAction::Stop => {
                assert!(lines.next().is_none());
                return rx;
            }
        };
        action = drain_stdout(event);
    }
}

#[test]
fn the_wait_gets_the_first_url_drained() {
    let rx = drained(b"boot\ndsh web: \ndsh web: http://a (LAN: x)\ndsh web: http://b\n");
    assert_eq!(wait_for_ready(&rx, 5000), Ok("http://a".to_string()));
    let rx = drained(b"boot\nnothing to see\n");
    assert_eq!(wait_for_ready(&rx, 5000), Err(ServiceError::ExitedBeforeReady { code: None }));
    let rx = drained(b"");
    assert_eq!(wait_for_ready(&rx, 5000), Err(ServiceError::ExitedBeforeReady { code: None }));
}

#[test]
fn a_started_service_has_its_pid_and_url() {
    assert_eq!(
        started_service(42, Ok("http://127.0.0.1:31080".to_string())),
        Ok(ServiceHandle { pid: 42, url: Some("http://127.0.0.1:31080".to_string()) })
    );
    assert_eq!(
        started_service(42, Err(ServiceError::ReadyTimeout { timeout_ms: 60000 })),
        Err(ServiceError::ReadyTimeout { timeout_ms: 60000 })
    );
}

#[test]
fn spawn_failures_and_readiness() {
    let (tx, rx) = mpsc::channel::<String>();
    assert_eq!(
        spawn_service(Err("No such file or directory".to_string()), &rx),
        Err(ServiceError::Spawn("No such file or directory".to_string()))
    );
    tx.send("http://127.0.0.1:31080".to_string()).unwrap();
    assert_eq!(
        spawn_service(Ok(42), &rx),
        Ok(ServiceHandle { pid: 42, url: Some("http://127.0.0.1:31080".to_string()) })
    );
    drop(tx);
    assert_eq!(
        spawn_service(Ok(42), &rx),
        Err(ServiceError::ExitedBeforeReady { code: None })
    );
    assert_eq!(READY_TIMEOUT_MS, 60000);
}

#[test]
fn other_lines_announce_nothing() {
    assert_eq!(ready_url(""), None);
    assert_eq!(ready_url("dsh web:"), None);
    assert_eq!(ready_url("dsh web: "), None);
    assert_eq!(ready_url("dsh web: \t \n"), None);
    assert_eq!(ready_url(" dsh web: http://127.0.0.1:1"), None);
    assert_eq!(ready_url("DSH web: http://127.0.0.1:1"), None);
    assert_eq!(ready_url("listening on http://127.0.0.1:1"), None);
}

#[test]
fn readiness_lines_announce_their_url() {
    assert_eq!(ready_url("dsh web: u"), Some("u".to_string()));
    assert_eq!(ready_url("dsh web: u\n"), Some("u".to_string()));
    assert_eq!(ready_url("dsh web:   u\u{3000}v"), Some("u".to_string()));
    assert_eq!(ready_url("dsh web: é越 x"), Some("é越".to_string()));
}

#[test]
fn readiness_agrees_with_std() {
    let lines = [
        "dsh web: http://127.0.0.1:31080\r\n",
        "dsh web: \u{a0}http://a b",
        "dsh web: a\u{85}b",
        "dsh web:\u{2003}a",
        "dsh web: \u{200b}a",
        "dsh",
    ];
    for line in lines {
        let expected = line
            .strip_prefix(READY_PREFIX)
            .and_then(|rest| rest.split_whitespace().next())
            .map(|word| word.to_string());
        assert_eq!(ready_url(line), expected);
    }
}

#[test]
fn drain_reads_on_until_the_end() {
    assert_eq!(
        drain_stdout(DrainEvent::Line("dsh web: http://127.0.0.1:31080\n".to_string())),
        DrainAction::SendUrl("http://127.0.0.1:31080".to_string())
    );
    assert_eq!(drain_stdout(DrainEvent::Line("hello\n".to_string())), DrainAction::ReadLine);
    assert_eq!(drain_stdout(DrainEvent::Line("dsh web: \n".to_string())), DrainAction::ReadLine);
    assert_eq!(drain_stdout(DrainEvent::Undecodable), DrainAction::ReadLine);
    assert_eq!(drain_stdout(DrainEvent::Sent), DrainAction::ReadLine);
    assert_eq!(drain_stdout(DrainEvent::Ended), DrainAction::Stop);
    assert_eq!(drain_stdout(DrainEvent::ReadFailed), DrainAction::Stop);
    assert_eq!(drain_stdout(DrainEvent::ReceiverGone), DrainAction::Stop);
}

#[test]
fn drain_hands_over_every_url_in_order() {
    let lines = ["booting\n", "dsh web: a\n", "noise\n", "dsh web: b c\n", "dsh web: \n"];
    let mut next = 0;
    let mut sent: Vec<String> = Vec::new();
    let mut action = DrainAction::ReadLine;
    loop {
        let event = match action {
            DrainAction::ReadLine => {
                if next < lines.len() {
                    next += 1;
                    DrainEvent::Line(lines[next - 1].to_string())
                } else {
                    DrainEvent::Ended
                }
            }
            DrainAction::SendUrl(url) => {
                sent.push(url);
                DrainEvent::Sent
            }
            DrainAction::Stop => break,
        };
        action = drain_stdout(event);
    }
    assert_eq!(sent, vec!["a".to_string(), "b".to_string()]);
    assert_eq!(next, 5);
}
