use dontspeak::client::ClientError;
use dontspeak::connection::Status;
use dontspeak::json::{Json, Member};
use dontspeak::page::{
    button_label, ends_test, fetch_failed, model_reply, model_status_rows, page_card, queue_reply, Card,
    DontSpeakPageState, FetchError, Line, LineColor, OtherReply, PageButton, PageObserver, PageTask,
    QueueSnapshot, Row, RowIcon, Section, TestError, TestEvent, TestSection, TestStream,
    INSTALL_URL,
};
use dontspeak::protocol::{decode_response, DecodeError, Request, Response};

fn line(text: &str, color: LineColor) -> Line {
    Line {
        text: text.into(),
        color,
    }
}

fn row(name: &str, value: &str, icon: RowIcon) -> Row {
    Row {
        name: name.into(),
        value: value.into(),
        icon,
    }
}

fn queue_status(tts_active: bool, queued: usize) -> Result<Response, FetchError> {
    Ok(Response::Status {
        tts_active,
        queued,
        paused: true,
        muted: false,
    })
}

fn gone() -> Result<Response, FetchError> {
    Err(FetchError::Failed("gone".into()))
}

fn model_status(json: &str) -> Response {
    decode_response(&format!("{{\"ok\":\"model_status\",\"status\":{json}}}")).unwrap()
}

fn status_of(json: &str) -> Json {
    match model_status(json) {
        Response::ModelStatus { status } => status,
        other => panic!("expected a model status, got {other:?}"),
    }
}

fn member(name: &str, value: Json) -> Member {
    (name.into(), value)
}

#[test]
fn replies_to_the_status_request_become_a_snapshot() {
    assert_eq!(
        queue_reply(queue_status(true, 2)),
        Some(Ok(QueueSnapshot {
            tts_active: true,
            queued: 2,
            paused: true,
            muted: false
        }))
    );
    assert_eq!(
        queue_reply(Ok(Response::Error {
            message: "nope".into()
        })),
        Some(Err("nope".into()))
    );
    assert_eq!(
        queue_reply(Ok(Response::Done)),
        Some(Err("Unexpected reply to the status request.".into()))
    );
    assert_eq!(queue_reply(gone()), Some(Err("gone".into())));
    assert_eq!(
        queue_reply(Err(FetchError::Unreachable("away".into()))),
        None
    );
}

#[test]
fn replies_to_the_model_status_request_become_json() {
    assert_eq!(model_reply(Ok(model_status("null"))), Ok(Json::Null));
    assert_eq!(
        model_reply(Ok(Response::Error {
            message: "nope".into()
        })),
        Err("nope".into())
    );
    assert_eq!(
        model_reply(queue_status(true, 2)),
        Err("Unexpected reply to the model-status request.".into())
    );
    assert_eq!(model_reply(gone()), Err("gone".into()));
    assert_eq!(
        model_reply(Err(FetchError::Unreachable("away".into()))),
        Err("away".into())
    );
}

#[test]
fn an_unreachable_daemon_has_no_queue() {
    let error = anyhow::Error::msg("no such file");
    let (mut page, task) = DontSpeakPageState::new();
    assert_eq!(task, PageTask::Fetch);
    page.refreshed(
        Err(fetch_failed(false, &error)),
        Err(fetch_failed(false, &error)),
    );
    assert_eq!(
        page.daemon_section().note,
        Some(line("Loading queue state…", LineColor::Muted))
    );
    assert_eq!(
        page.models_section().note,
        Some(line("no such file", LineColor::Error))
    );

    page.refreshed(
        Err(fetch_failed(true, &error)),
        Err(fetch_failed(true, &error)),
    );
    assert_eq!(
        page.daemon_section().note,
        Some(line("no such file", LineColor::Error))
    );
}

#[test]
fn model_status_is_flattened_one_level() {
    assert_eq!(
        model_status_rows(&status_of(
            r#"{"z":true,"stt":{"ready":false,"deep":{"a":[1, 2]}},"n":-5,"a":"x","none":{}}"#
        )),
        vec![
            member("z", Json::Bool(true)),
            member("stt.ready", Json::Bool(false)),
            member("stt.deep", Json::Object(r#"{"a":[1,2]}"#.into())),
            member("n", Json::Signed(-5)),
            member("a", Json::Text("x".into())),
        ]
    );
    assert_eq!(
        model_status_rows(&status_of("[1, 2]")),
        vec![member("status", Json::Array("[1,2]".into()))]
    );
    assert_eq!(model_status_rows(&status_of("{}")), vec![]);
}

#[test]
fn the_models_section_shows_readiness() {
    let (mut page, _) = DontSpeakPageState::new();
    assert_eq!(
        page.models_section(),
        Section {
            rows: vec![],
            note: Some(line("Loading model status…", LineColor::Muted))
        }
    );
    page.refreshed(
        queue_status(false, 0),
        Ok(model_status(
            r#"{"a":true,"b":false,"c":"warm","d":7,"e":-9223372036854775808,"f":1.5,"g":null,"h":[true]}"#,
        )),
    );
    assert_eq!(
        page.models_section(),
        Section {
            rows: vec![
                row("a", "Ready", RowIcon::Ready),
                row("b", "Not ready", RowIcon::NotReady),
                row("c", "warm", RowIcon::Absent),
                row("d", "7", RowIcon::Absent),
                row("e", "-9223372036854775808", RowIcon::Absent),
                row("f", "1.5", RowIcon::Absent),
                row("g", "—", RowIcon::Absent),
                row("h", "[true]", RowIcon::Absent),
            ],
            note: None
        }
    );
    page.refreshed(queue_status(false, 0), Ok(model_status("{}")));
    assert_eq!(
        page.models_section(),
        Section {
            rows: vec![],
            note: Some(line("The daemon reported no models.", LineColor::Muted))
        }
    );
    page.refreshed(queue_status(false, 0), gone());
    assert_eq!(
        page.models_section(),
        Section {
            rows: vec![],
            note: Some(line("gone", LineColor::Error))
        }
    );
}

#[test]
fn the_daemon_section_shows_the_queue() {
    let connected = || row("Status", "Connected", RowIcon::Ready);
    let (mut page, _) = DontSpeakPageState::new();
    assert_eq!(
        page.daemon_section(),
        Section {
            rows: vec![connected()],
            note: Some(line("Loading queue state…", LineColor::Muted))
        }
    );
    for (tts_active, queued, speech) in [
        (true, 0, "Speaking (0 queued)"),
        (true, 12, "Speaking (12 queued)"),
        (false, 3, "Idle (3 queued)"),
        (false, 0, "Idle"),
    ] {
        page.refreshed(queue_status(tts_active, queued), gone());
        assert_eq!(
            page.daemon_section(),
            Section {
                rows: vec![
                    connected(),
                    row("Speech", speech, RowIcon::Absent),
                    row("Paused", "Yes", RowIcon::Absent),
                    row("Muted", "No", RowIcon::Absent),
                ],
                note: None
            }
        );
    }
    page.refreshed(gone(), gone());
    assert_eq!(
        page.daemon_section(),
        Section {
            rows: vec![connected()],
            note: Some(line("gone", LineColor::Error))
        }
    );
}

#[test]
fn a_test_goes_from_its_start_to_a_transcript() {
    let (mut page, task) = DontSpeakPageState::new();
    assert_eq!(task, PageTask::Fetch);
    assert_eq!(
        page.test_section(),
        TestSection {
            button: PageButton::StartTest,
            lines: vec![]
        }
    );

    let (written, mut stream) = page.start_test().unwrap();
    assert_eq!(written, "{\"cmd\":\"test_recognition_start\"}\n");
    assert!(page.start_test().is_none());
    assert_eq!(
        page.test_section(),
        TestSection {
            button: PageButton::StopTest,
            lines: vec![line("Starting…", LineColor::Muted)]
        }
    );

    stream.receive(
        b"\n{\"ok\":\"listening\"}\n{\"ok\":\"frontend_event\",\"event\":\"refused\",\"seq\":1}\n{\"ok\":\"partial\",\"text\":\"hel\"}\n{\"ok\":",
    );
    let event = stream.next().unwrap().unwrap();
    assert_eq!(event, TestEvent::Listening);
    assert!(!ends_test(&event));
    page.apply_test_event(event);
    assert_eq!(
        page.test_section(),
        TestSection {
            button: PageButton::StopTest,
            lines: vec![line("Listening — speak now", LineColor::Accent)]
        }
    );

    page.apply_test_event(stream.next().unwrap().unwrap());
    assert_eq!(
        page.test_section(),
        TestSection {
            button: PageButton::StopTest,
            lines: vec![
                line("Listening — speak now", LineColor::Accent),
                line("hel", LineColor::Muted)
            ]
        }
    );
    assert_eq!(stream.next(), None);
    assert_eq!(page.stop_test(), Request::TestRecognitionStop);

    stream.receive(b"\"transcript\",\"text\":\"hello\"}\n");
    let event = stream.next().unwrap().unwrap();
    assert!(ends_test(&event));
    page.apply_test_event(event);
    assert!(!page.test_running());
    assert_eq!(
        page.test_section(),
        TestSection {
            button: PageButton::StartTest,
            lines: vec![
                line("Transcript", LineColor::Muted),
                line("hello", LineColor::Normal)
            ]
        }
    );
}

fn failure(bytes: &[u8]) -> TestError {
    let (mut page, _) = DontSpeakPageState::new();
    let (_, mut stream): (String, TestStream) = page.start_test().unwrap();
    stream.receive(bytes);
    stream.next().unwrap().unwrap_err()
}

#[test]
fn a_test_fails_with_the_reason() {
    assert_eq!(
        failure(b"{\"ok\":\"error\",\"message\":\"no microphone\"}\n").to_event(""),
        TestEvent::Failed("no microphone".into())
    );
    let error = failure(b"{\"ok\":\"done\"}\n");
    assert_eq!(
        error,
        TestError::Unexpected {
            reply: OtherReply::Done
        }
    );
    assert_eq!(
        error.message(""),
        "unexpected daemon reply to test recognition: Done"
    );
    assert_eq!(
        failure(b"{\"ok\":\"new\"}\n").message(""),
        "unexpected daemon reply to test recognition: Unknown"
    );
    assert_eq!(
        failure(
            b"{\"ok\":\"status\",\"tts_active\":false,\"queued\":4,\"paused\":true,\"muted\":false}\n"
        )
        .message(""),
        "unexpected daemon reply to test recognition: \
         Status { tts_active: false, queued: 4, paused: true, muted: false }"
    );
    assert_eq!(
        failure(b"{\"ok\":\"model_status\",\"status\":{\"a\":[1,\"x\"]}}\n").message(""),
        "unexpected daemon reply to test recognition: \
         ModelStatus { status: Object {\"a\": Array [Number(1), String(\"x\")]} }"
    );
    assert_eq!(
        failure(b"oops\n"),
        TestError::Client(ClientError::Malformed {
            line: "oops".into(),
            error: DecodeError::Syntax
        })
    );
    assert!(matches!(
        failure(b"\xff\n"),
        TestError::Client(ClientError::Encoding { .. })
    ));

    assert_eq!(
        failure(b"{\"ok\":\"partial\"}\n").to_event("missing field `text`"),
        TestEvent::Failed(
            "parsing daemon line \"{\\\"ok\\\":\\\"partial\\\"}\": missing field `text`".into()
        )
    );
    assert_eq!(
        failure(b"{\"ok\":\"done\"}\n").to_event("missing field `text`"),
        TestEvent::Failed("unexpected daemon reply to test recognition: Done".into())
    );

    let (mut page, _) = DontSpeakPageState::new();
    let (_, stream) = page.start_test().unwrap();
    assert_eq!(
        stream.closed().message(""),
        "the daemon closed the connection before a final transcript"
    );
    page.apply_test_event(stream.closed().to_event(""));
    assert_eq!(
        page.test_section(),
        TestSection {
            button: PageButton::StartTest,
            lines: vec![line(
                "the daemon closed the connection before a final transcript",
                LineColor::Error
            )]
        }
    );
}

#[test]
fn a_lost_connection_drops_what_is_stale() {
    let (mut page, _) = DontSpeakPageState::new();
    page.refreshed(queue_status(true, 1), Ok(model_status("{\"a\":true}")));
    page.start_test();
    assert_eq!(page.handle_status_changed(true), PageTask::Fetch);
    assert!(page.test_running());
    page.refreshed(queue_status(true, 1), Ok(model_status("{\"a\":true}")));
    assert_eq!(page.handle_status_changed(false), PageTask::CancelAll);
    assert!(!page.test_running());
    assert_eq!(
        page.daemon_section().note,
        Some(line("Loading queue state…", LineColor::Muted))
    );
    assert_eq!(
        page.models_section().note,
        Some(line("Loading model status…", LineColor::Muted))
    );
    assert_eq!(page.refresh(), PageTask::Fetch);
    assert_eq!(
        DontSpeakPageState::fetch_requests(),
        (Request::Status, Request::ModelStatus)
    );
}

#[test]
fn the_page_follows_the_status() {
    assert_eq!(page_card(&Some(Status::Connected)), None);
    assert_eq!(
        page_card(&Some(Status::Connecting)),
        Some(Card {
            lines: vec![line("Connecting to the DontSpeak daemon…", LineColor::Muted)],
            buttons: vec![]
        })
    );
    assert_eq!(
        page_card(&Some(Status::Error("refused".into()))),
        Some(Card {
            lines: vec![
                line("Failed to connect to the DontSpeak daemon", LineColor::Normal),
                line("refused", LineColor::Error)
            ],
            buttons: vec![PageButton::CheckAgain]
        })
    );
    let card = page_card(&Some(Status::Absent)).unwrap();
    assert_eq!(card.lines[0].text, "DontSpeak is not installed or not running");
    assert_eq!(
        card.lines[1].text,
        "DontSpeak provides CapsLock dictation and spoken narration of agent replies. \
         Zed connects to its local daemon automatically once it is running."
    );
    assert_eq!(card.buttons, vec![PageButton::Install, PageButton::CheckAgain]);
    assert_eq!(
        page_card(&Some(Status::Disabled)).unwrap().lines,
        vec![line(
            "The DontSpeak integration is turned off. Enable it on the Voice page to connect to the daemon.",
            LineColor::Muted
        )]
    );
    assert_eq!(
        page_card(&None).unwrap().lines,
        vec![line(
            "The DontSpeak integration did not initialize in this build of Zed.",
            LineColor::Muted
        )]
    );
}

#[test]
fn buttons_say_what_they_do() {
    assert_eq!(button_label(PageButton::Install), "Get DontSpeak");
    assert_eq!(button_label(PageButton::CheckAgain), "Check Again");
    assert_eq!(button_label(PageButton::StartTest), "Start Test");
    assert_eq!(button_label(PageButton::StopTest), "Stop");
    assert_eq!(INSTALL_URL, "https://dontspeak.org");
}

#[test]
fn each_new_window_observes_the_page_once() {
    let mut observer = PageObserver { window: None };
    assert!(observer.shown_in(1));
    assert!(!observer.shown_in(1));
    assert!(observer.shown_in(2));
    assert!(observer.shown_in(1));
}
