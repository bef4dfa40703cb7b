use dontspeak::client::{
    is_absent_error, malformed_message, request, run_subscription, subscribe, AckQueue,
    ClientError, FrontendEvents, OneShot, PumpInput, PumpStep, ReceivedEvent, APP_TAG,
};
use dontspeak::lines::LineReader;
use dontspeak::protocol::{DecodeError, FrontendEvent, Request, Response};
use std::io::ErrorKind;

enum ServerStep {
    /// The client writes exactly this line.
    ExpectLine(String),
    /// The daemon writes this line.
    SendLine(String),
    /// The daemon closes the connection.
    Close,
}

/// Runs a one-shot request against a scripted daemon.
fn run_request(sent: &Request, script: Vec<ServerStep>) -> Result<Response, ClientError> {
    let (line, mut exchange) = request(sent);
    let mut written = vec![line];
    for step in script {
        match step {
            ServerStep::ExpectLine(expected) => {
                assert_eq!(written.remove(0), format!("{expected}\n"));
            }
            ServerStep::SendLine(line) => {
                if let Some(reply) = exchange.receive(format!("{line}\n").as_bytes()) {
                    return reply;
                }
            }
            ServerStep::Close => return Err(exchange.closed()),
        }
    }
    panic!("the script ended before the request");
}

fn send(events: &mut FrontendEvents, line: &str) {
    events.receive(format!("{line}\n").as_bytes());
}

#[test]
fn one_shot_request_reads_to_the_terminal_response() {
    let response = run_request(
        &Request::Status,
        vec![
            ServerStep::ExpectLine(r#"{"cmd":"status"}"#.into()),
            // A non-terminal line first: the client must skip it.
            ServerStep::SendLine(r#"{"ok":"listening"}"#.into()),
            ServerStep::SendLine(
                r#"{"ok":"status","tts_active":false,"queued":0,"paused":false,"muted":true}"#
                    .into(),
            ),
            ServerStep::Close,
        ],
    )
    .unwrap();
    assert_eq!(
        response,
        Response::Status {
            tts_active: false,
            queued: 0,
            paused: false,
            muted: true,
        }
    );
}

#[test]
fn connecting_to_a_missing_socket_is_an_absent_error() {
    let error = anyhow::Error::from(std::io::Error::from(ErrorKind::NotFound));
    assert!(
        is_absent_error(&error),
        "expected an absent-daemon error, got: {error:?}"
    );
}

#[test]
fn subscribe_streams_events_acks_deliveries_and_reconnects() {
    // Round 1: subscribe, three events, a deliver and its ack, then the daemon
    // goes away.
    let (line, mut events, sink) = subscribe(APP_TAG);
    assert_eq!(line, "{\"cmd\":\"subscribe_frontend\",\"app\":\"zed\"}\n");
    send(
        &mut events,
        r#"{"ok":"frontend_event","event":"recording_started","seq":1}"#,
    );
    send(
        &mut events,
        r#"{"ok":"frontend_event","event":"partial","text":"hello wor","seq":2}"#,
    );
    send(
        &mut events,
        r#"{"ok":"frontend_event","event":"awaiting_confirm","text":"hello world","seq":3}"#,
    );
    send(
        &mut events,
        r#"{"ok":"frontend_event","event":"deliver","text":"hello world","submit":true,"seq":4}"#,
    );
    assert_eq!(
        events.next().unwrap().unwrap(),
        ReceivedEvent {
            seq: 1,
            event: FrontendEvent::RecordingStarted,
        }
    );
    assert_eq!(
        events.next().unwrap().unwrap(),
        ReceivedEvent {
            seq: 2,
            event: FrontendEvent::Partial {
                text: "hello wor".into()
            },
        }
    );
    assert_eq!(
        events.next().unwrap().unwrap(),
        ReceivedEvent {
            seq: 3,
            event: FrontendEvent::AwaitingConfirm {
                text: "hello world".into()
            },
        }
    );
    assert_eq!(
        events.next().unwrap().unwrap(),
        ReceivedEvent {
            seq: 4,
            event: FrontendEvent::Deliver {
                text: "hello world".into(),
                submit: true,
            },
        }
    );
    assert_eq!(
        sink.ack(4, true),
        "{\"cmd\":\"ack_deliver\",\"seq\":4,\"ok\":true}\n"
    );
    // The daemon hangs up after the ack: nothing more is read.
    assert_eq!(events.next(), None);

    // Round 2: the daemon comes back; a fresh subscribe works.
    let (line, mut events, _sink) = subscribe(APP_TAG);
    assert_eq!(line, "{\"cmd\":\"subscribe_frontend\",\"app\":\"zed\"}\n");
    send(
        &mut events,
        r#"{"ok":"frontend_event","event":"cancelled","seq":1}"#,
    );
    assert_eq!(
        events.next().unwrap().unwrap(),
        ReceivedEvent {
            seq: 1,
            event: FrontendEvent::Cancelled,
        }
    );
}

#[test]
fn daemon_error_line_fails_the_subscription() {
    let (line, mut events, _sink) = subscribe(APP_TAG);
    assert_eq!(line, "{\"cmd\":\"subscribe_frontend\",\"app\":\"zed\"}\n");
    send(&mut events, r#"{"ok":"error","message":"frontend disabled"}"#);
    let error = events.next().unwrap().unwrap_err();
    assert!(error.message("").contains("frontend disabled"));
    assert_eq!(
        error.message(""),
        "the daemon rejected the frontend subscription: frontend disabled"
    );
}

#[test]
fn run_subscription_pumps_events_and_acks() {
    let (line, mut events, sink) = subscribe(APP_TAG);
    assert_eq!(line, "{\"cmd\":\"subscribe_frontend\",\"app\":\"zed\"}\n");
    let turn = |events: &mut FrontendEvents, acks| {
        run_subscription(events, &sink, PumpInput::Turn(acks))
    };
    assert_eq!(turn(&mut events, AckQueue::Empty), PumpStep::Wait);
    let step = run_subscription(
        &mut events,
        &sink,
        PumpInput::Arrived(
            b"{\"ok\":\"frontend_event\",\"event\":\"deliver\",\"text\":\"hi\",\"submit\":false,\"seq\":7}\n",
        ),
    );
    assert_eq!(step, PumpStep::Turn);
    assert_eq!(
        turn(&mut events, AckQueue::Empty),
        PumpStep::Forward(ReceivedEvent {
            seq: 7,
            event: FrontendEvent::Deliver {
                text: "hi".into(),
                submit: false,
            },
        })
    );
    run_subscription(
        &mut events,
        &sink,
        PumpInput::Arrived(b"{\"ok\":\"frontend_event\",\"event\":\"cancelled\",\"seq\":8}\n"),
    );
    // The ack that waits goes before the next event.
    assert_eq!(
        turn(&mut events, AckQueue::Ready { seq: 7, ok: true }),
        PumpStep::Write("{\"cmd\":\"ack_deliver\",\"seq\":7,\"ok\":true}\n".into())
    );
    assert_eq!(
        turn(&mut events, AckQueue::Empty),
        PumpStep::Forward(ReceivedEvent {
            seq: 8,
            event: FrontendEvent::Cancelled,
        })
    );
    // The owner drops the ack sender.
    assert_eq!(
        turn(&mut events, AckQueue::Closed),
        PumpStep::Finish(Ok(()))
    );
}

#[test]
fn run_subscription_reports_a_daemon_hangup_as_an_error() {
    let (line, mut events, sink) = subscribe(APP_TAG);
    assert_eq!(line, "{\"cmd\":\"subscribe_frontend\",\"app\":\"zed\"}\n");
    let result = run_subscription(&mut events, &sink, PumpInput::Closed);
    assert_eq!(
        result,
        PumpStep::Finish(Err(ClientError::HungUp)),
        "a daemon hangup must surface as Err"
    );
}

#[test]
fn an_owner_that_is_gone_ends_the_subscription_well() {
    let (_, mut events, sink) = subscribe(APP_TAG);
    assert_eq!(
        run_subscription(&mut events, &sink, PumpInput::OwnerGone),
        PumpStep::Finish(Ok(()))
    );
    assert_eq!(
        run_subscription(&mut events, &sink, PumpInput::Failed("broken pipe".into())),
        PumpStep::Finish(Err(ClientError::Io {
            reason: "broken pipe".into()
        }))
    );
}

#[test]
fn a_connection_that_ends_early_leaves_the_request_unanswered() {
    let error = run_request(
        &Request::Status,
        vec![
            ServerStep::ExpectLine(r#"{"cmd":"status"}"#.into()),
            ServerStep::Close,
        ],
    )
    .unwrap_err();
    assert_eq!(error, ClientError::Unanswered);
    assert_eq!(
        error.message(""),
        "the daemon closed the connection before a terminal response"
    );
    assert_eq!(
        ClientError::HungUp.message(""),
        "the daemon closed the frontend connection"
    );
}

#[test]
fn a_blank_line_fails_a_request_and_not_a_subscription() {
    let (_, mut exchange) = request(&Request::Status);
    assert_eq!(
        exchange.receive(b"\n"),
        Some(Err(ClientError::Malformed {
            line: "".into(),
            error: DecodeError::Syntax
        }))
    );
    let (_, mut events, _) = subscribe(APP_TAG);
    events.receive(b"\n  \r\n{\"ok\":\"done\"}\n");
    assert_eq!(events.next(), None);
}

#[test]
fn a_malformed_line_says_what_it_is() {
    let (_, mut events, _) = subscribe(APP_TAG);
    events.receive("{\"ok\":\"é\u{7}\n{\"ok\":\"error\"}\n".as_bytes());
    let error = events.next().unwrap().unwrap_err();
    assert_eq!(
        error.message("expected value at line 1 column 1"),
        "parsing daemon line \"{\\\"ok\\\":\\\"é\\u{7}\": expected value at line 1 column 1"
    );
    let error = events.next().unwrap().unwrap_err();
    assert_eq!(
        error.message("missing field `message`"),
        "parsing daemon line \"{\\\"ok\\\":\\\"error\\\"}\": missing field `message`"
    );
    assert_eq!(
        malformed_message("\"x\"", "expected value"),
        "parsing daemon line \"x\": expected value"
    );
    assert_eq!(
        ClientError::HungUp.message("expected value"),
        "the daemon closed the frontend connection"
    );
}

#[test]
fn a_line_that_is_no_utf8_fails_the_exchange() {
    let (_, mut exchange): (String, OneShot) = request(&Request::Status);
    let reply = exchange.receive(b"\xff\xfe\n").unwrap().unwrap_err();
    assert_eq!(
        reply,
        ClientError::Encoding {
            reason: "invalid utf-8 sequence of 1 bytes from index 0".into()
        }
    );
    assert_eq!(
        reply.message(""),
        "invalid utf-8 sequence of 1 bytes from index 0"
    );
    // The line is consumed.
    assert_eq!(
        exchange.receive(b"{\"ok\":\"done\"}\n"),
        Some(Ok(Response::Done))
    );
}

#[test]
fn lines_do_not_depend_on_the_chunks() {
    let bytes = "{\"ok\":\"frontend_event\",\"event\":\"partial\",\"text\":\"é→\",\"seq\":2}\r\n\
                 \n{\"ok\":\"done\"}\n{\"ok\":\"frontend_event\",\"event\":\"refused\",\"seq\":3}\n{\"ok\":"
        .as_bytes();
    let expected = vec![
        ReceivedEvent {
            seq: 2,
            event: FrontendEvent::Partial { text: "é→".into() },
        },
        ReceivedEvent {
            seq: 3,
            event: FrontendEvent::Refused,
        },
    ];
    for size in 1..bytes.len() + 1 {
        let (_, mut events, _) = subscribe(APP_TAG);
        let mut received = Vec::new();
        for chunk in bytes.chunks(size) {
            events.receive(chunk);
            while let Some(event) = events.next() {
                received.push(event.unwrap());
            }
        }
        assert_eq!(received, expected, "in chunks of {size}");
    }
}

#[test]
fn a_line_ending_is_a_newline_with_at_most_one_return() {
    let mut reader = LineReader::new();
    reader.receive(b"a\r\nb\r\r\n\nc");
    assert_eq!(reader.next_line(), Some(Ok("a".into())));
    assert_eq!(reader.next_line(), Some(Ok("b\r".into())));
    assert_eq!(reader.next_line(), Some(Ok("".into())));
    assert_eq!(reader.next_line(), None);
    reader.receive(b"d\n");
    assert_eq!(reader.next_line(), Some(Ok("cd".into())));
}

#[test]
fn requests_that_were_written_are_read_in_their_order() {
    let requests = [
        Request::NarrateBatch {
            session: "s".into(),
            key: "s#0#1".into(),
            text: "> one\n> two\r\n".into(),
            is_final: false,
        },
        Request::AckDeliver { seq: 1, ok: true },
        Request::Status,
    ];
    let mut reader = LineReader::new();
    for sent in &requests {
        reader.receive(request(sent).0.as_bytes());
    }
    for sent in &requests {
        let line = reader.next_line().unwrap().unwrap();
        assert_eq!(
            &dontspeak::protocol::decode_request(&line).unwrap(),
            sent
        );
    }
    assert_eq!(reader.next_line(), None);
}

#[test]
fn each_absent_kind_is_absent_and_others_are_not() {
    for kind in [
        ErrorKind::NotFound,
        ErrorKind::ConnectionRefused,
        ErrorKind::AddrNotAvailable,
    ] {
        assert!(is_absent_error(&std::io::Error::from(kind).into()));
    }
    assert!(!is_absent_error(
        &std::io::Error::from(ErrorKind::PermissionDenied).into()
    ));
    assert!(!is_absent_error(&anyhow::Error::msg("not found")));
}

#[test]
fn context_does_not_hide_an_absent_daemon() {
    let error = anyhow::Error::from(std::io::Error::from(ErrorKind::ConnectionRefused))
        .context("connecting to the daemon")
        .context("starting up");
    assert!(is_absent_error(&error));

    let error = anyhow::Error::from(std::io::Error::from(ErrorKind::PermissionDenied))
        .context("connecting to the daemon")
        .context("starting up");
    assert!(!is_absent_error(&error));
}

#[test]
fn a_subscription_hands_on_events_and_acks_in_their_order() {
    let (_, mut events, sink) = subscribe(APP_TAG);
    let bytes = b"{\"ok\":\"frontend_event\",\"event\":\"refused\",\"seq\":1}\n\n{\"ok\":\"done\"}\n{\"ok\":\"frontend_event\",\"event\":\"cancelled\",\"seq\":2}\n";
    let mut forwarded = Vec::new();
    let mut written = Vec::new();
    for (seq, chunk) in (1..).zip(bytes.chunks(7)) {
        assert_eq!(
            run_subscription(&mut events, &sink, PumpInput::Arrived(chunk)),
            PumpStep::Turn
        );
        let acked = PumpInput::Turn(AckQueue::Ready { seq, ok: true });
        match run_subscription(&mut events, &sink, acked) {
            PumpStep::Write(line) => written.push(line),
            other => panic!("expected an ack, got {other:?}"),
        }
        while let PumpStep::Forward(event) =
            run_subscription(&mut events, &sink, PumpInput::Turn(AckQueue::Empty))
        {
            forwarded.push(event.seq);
        }
    }
    assert_eq!(forwarded, [1, 2]);
    for (seq, line) in (1..).zip(&written) {
        let seq: u64 = seq;
        assert_eq!(
            *line,
            format!("{{\"cmd\":\"ack_deliver\",\"seq\":{seq},\"ok\":true}}\n")
        );
    }
}
