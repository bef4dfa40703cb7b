use dontspeak::json::Json;
use dontspeak::page::model_status_rows;
use dontspeak::protocol::{
    decode_request, decode_response, encode_request, DecodeError, FrontendEvent, Request, Response,
};

/// Requests must encode to the exact bytes that the daemon parses.
#[test]
fn request_fixtures_match_daemon_wire_shapes() {
    let cases: &[(Request, &str)] = &[
        (
            Request::SubscribeFrontend { app: "zed".into() },
            r#"{"cmd":"subscribe_frontend","app":"zed"}"#,
        ),
        (
            Request::AckDeliver { seq: 4, ok: true },
            r#"{"cmd":"ack_deliver","seq":4,"ok":true}"#,
        ),
        (
            Request::NarrateBatch {
                session: "sess-1".into(),
                key: "sess-1#0#3".into(),
                text: "> Done.".into(),
                is_final: false,
            },
            r#"{"cmd":"narrate_batch","session":"sess-1","key":"sess-1#0#3","text":"> Done.","is_final":false}"#,
        ),
        (
            Request::MarkActive {
                session: Some("sess-1".into()),
                synthetic: false,
            },
            r#"{"cmd":"mark_active","session":"sess-1","synthetic":false}"#,
        ),
        (
            Request::SessionEnd {
                session: Some("sess-1".into()),
            },
            r#"{"cmd":"session_end","session":"sess-1"}"#,
        ),
        (
            Request::StopSpeech { session: None },
            r#"{"cmd":"stop_speech"}"#,
        ),
        (
            Request::StopSpeech {
                session: Some("sess-1".into()),
            },
            r#"{"cmd":"stop_speech","session":"sess-1"}"#,
        ),
        (Request::Status, r#"{"cmd":"status"}"#),
        (Request::ModelStatus, r#"{"cmd":"model_status"}"#),
        (
            Request::TestRecognitionStart,
            r#"{"cmd":"test_recognition_start"}"#,
        ),
        (
            Request::TestRecognitionStop,
            r#"{"cmd":"test_recognition_stop"}"#,
        ),
    ];
    for (req, expected) in cases {
        let line = encode_request(req);
        assert_eq!(&line, expected);
        assert!(!line.contains('\n'), "a request must be a single line");
        let back = decode_request(&line).unwrap();
        assert_eq!(&back, req);
    }
}

/// The daemon's frontend-event lines, verbatim.
#[test]
fn frontend_event_fixtures_parse() {
    let cases: &[(&str, FrontendEvent, u64)] = &[
        (
            r#"{"ok":"frontend_event","event":"recording_started","seq":1}"#,
            FrontendEvent::RecordingStarted,
            1,
        ),
        (
            r#"{"ok":"frontend_event","event":"partial","text":"hello wor","seq":2}"#,
            FrontendEvent::Partial {
                text: "hello wor".into(),
            },
            2,
        ),
        (
            r#"{"ok":"frontend_event","event":"awaiting_confirm","text":"hello world","seq":3}"#,
            FrontendEvent::AwaitingConfirm {
                text: "hello world".into(),
            },
            3,
        ),
        (
            r#"{"ok":"frontend_event","event":"deliver","text":"hello world","submit":true,"seq":4}"#,
            FrontendEvent::Deliver {
                text: "hello world".into(),
                submit: true,
            },
            4,
        ),
        (
            r#"{"ok":"frontend_event","event":"cancelled","seq":5}"#,
            FrontendEvent::Cancelled,
            5,
        ),
        (
            r#"{"ok":"frontend_event","event":"refused","seq":6}"#,
            FrontendEvent::Refused,
            6,
        ),
    ];
    for (line, expected_event, expected_seq) in cases {
        let resp = decode_response(line).unwrap();
        match resp {
            Response::FrontendEvent { event, seq } => {
                assert_eq!(&event, expected_event, "for line {line}");
                assert_eq!(seq, *expected_seq, "for line {line}");
            }
            other => panic!("expected FrontendEvent for {line}, got {other:?}"),
        }
    }
}

#[test]
fn response_fixtures_parse() {
    let status = decode_response(
        r#"{"ok":"status","tts_active":true,"queued":2,"paused":false,"muted":false}"#,
    )
    .unwrap();
    assert_eq!(
        status,
        Response::Status {
            tts_active: true,
            queued: 2,
            paused: false,
            muted: false,
        }
    );

    let done = decode_response(r#"{"ok":"done"}"#).unwrap();
    assert_eq!(done, Response::Done);

    let err = decode_response(r#"{"ok":"error","message":"nope"}"#).unwrap();
    assert_eq!(
        err,
        Response::Error {
            message: "nope".into()
        }
    );

    let model_status =
        decode_response(r#"{"ok":"model_status","status":{"running":{"caps":true}}}"#).unwrap();
    match model_status {
        Response::ModelStatus { status } => {
            assert_eq!(
                model_status_rows(&status),
                vec![("running.caps".to_string(), Json::Bool(true))]
            );
        }
        other => panic!("expected ModelStatus, got {other:?}"),
    }
}

/// An `ok` tag that this build does not know must decode to `Unknown`, which
/// is terminal.
#[test]
fn unrecognized_response_tag_falls_back_to_unknown() {
    let resp = decode_response(r#"{"ok":"some_future_variant","extra":"field","n":42}"#).unwrap();
    assert_eq!(resp, Response::Unknown);
    assert!(resp.is_terminal());
}

/// An unknown `event` must decode to `FrontendEvent::Unknown` inside a
/// `frontend_event` that is still not terminal.
#[test]
fn unrecognized_frontend_event_falls_back_to_unknown() {
    let resp =
        decode_response(r#"{"ok":"frontend_event","event":"some_future_event","text":"x","seq":9}"#)
            .unwrap();
    assert_eq!(
        resp,
        Response::FrontendEvent {
            event: FrontendEvent::Unknown,
            seq: 9,
        }
    );
    assert!(!resp.is_terminal());
}

#[test]
fn terminal_classification() {
    assert!(Response::Done.is_terminal());
    assert!(Response::Error {
        message: "x".into()
    }
    .is_terminal());
    assert!(!Response::Listening.is_terminal());
    assert!(!Response::Partial { text: "x".into() }.is_terminal());
    assert!(!Response::FrontendEvent {
        event: FrontendEvent::RecordingStarted,
        seq: 1,
    }
    .is_terminal());
}

#[test]
fn the_other_responses_are_terminal() {
    assert!(Response::Unknown.is_terminal());
    assert!(Response::Transcript { text: "x".into() }.is_terminal());
    assert!(Response::ModelStatus { status: Json::Null }.is_terminal());
    assert!(Response::Status {
        tts_active: false,
        queued: 0,
        paused: false,
        muted: false
    }
    .is_terminal());
}

#[test]
fn texts_are_escaped_on_the_wire_and_read_back() {
    let request = Request::NarrateBatch {
        session: "a\"b\\c".into(),
        key: "tab\tnewline\nreturn\r".into(),
        text: "\u{1}\u{8}\u{c}\u{1f}\u{7f} → é".into(),
        is_final: true,
    };
    let line = encode_request(&request);
    assert_eq!(
        line,
        "{\"cmd\":\"narrate_batch\",\"session\":\"a\\\"b\\\\c\",\
         \"key\":\"tab\\tnewline\\nreturn\\r\",\
         \"text\":\"\\u0001\\b\\f\\u001f\u{7f} → é\",\"is_final\":true}"
    );
    assert_eq!(decode_request(&line), Ok(request));
}

#[test]
fn the_largest_sequence_number_is_read_back() {
    let request = Request::AckDeliver {
        seq: u64::MAX,
        ok: false,
    };
    assert_eq!(decode_request(&encode_request(&request)), Ok(request));
}

#[test]
fn a_line_that_is_no_json_is_a_syntax_error() {
    assert_eq!(decode_response("not json"), Err(DecodeError::Syntax));
    assert_eq!(decode_response(""), Err(DecodeError::Syntax));
    assert_eq!(
        decode_response(r#"{"ok":"done"} trailing"#),
        Err(DecodeError::Syntax)
    );
    assert_eq!(decode_request("{"), Err(DecodeError::Syntax));
}

#[test]
fn json_that_is_no_message_is_a_shape_error() {
    for line in [
        "1",
        "null",
        "{}",
        "[]",
        r#"{"ok":1}"#,
        r#"{"ok":null}"#,
        r#"{"ok":"error"}"#,
        r#"{"ok":"error","message":1}"#,
        r#"{"ok":"error","message":"a","message":"b"}"#,
        r#"{"ok":"done","ok":"done"}"#,
        r#"{"ok":"status","tts_active":true,"queued":-1,"paused":false,"muted":false}"#,
        r#"{"ok":"status","tts_active":true,"queued":2.0,"paused":false,"muted":false}"#,
        r#"{"ok":"frontend_event","event":"partial","seq":1}"#,
        r#"{"ok":"frontend_event","event":"cancelled"}"#,
        r#"{"ok":"frontend_event","seq":1}"#,
    ] {
        assert_eq!(decode_response(line), Err(DecodeError::Shape), "{line}");
    }
    for line in [
        r#"{"cmd":"no_such_request"}"#,
        r#"{"cmd":"ack_deliver","seq":1}"#,
        r#"{"cmd":"stop_speech","session":1}"#,
    ] {
        assert_eq!(decode_request(line), Err(DecodeError::Shape), "{line}");
    }
}

#[test]
fn members_that_a_response_does_not_have_are_passed_over() {
    assert_eq!(
        decode_response(r#" { "x" : {"ok":"no"} , "ok" : "done", "y":[1,{"a":"}:{"}] } "#),
        Ok(Response::Done)
    );
    assert_eq!(
        decode_response(r#"{"message":"late tag","extra":null,"extra":1,"ok":"error"}"#),
        Ok(Response::Error {
            message: "late tag".into()
        })
    );
}

#[test]
fn a_message_may_be_an_array() {
    assert_eq!(decode_response(r#"["done"]"#), Ok(Response::Done));
    assert_eq!(
        decode_response(r#"["status",true,3,false,true]"#),
        Ok(Response::Status {
            tts_active: true,
            queued: 3,
            paused: false,
            muted: true
        })
    );
    assert_eq!(decode_response(r#"["done",1]"#), Err(DecodeError::Shape));
    assert_eq!(decode_response("[1]"), Err(DecodeError::Shape));
    assert_eq!(
        decode_request(r#"["ack_deliver",7,true]"#),
        Ok(Request::AckDeliver { seq: 7, ok: true })
    );
}

#[test]
fn optional_fields_of_requests_have_defaults() {
    assert_eq!(
        decode_request(r#"{"cmd":"mark_active"}"#),
        Ok(Request::MarkActive {
            session: None,
            synthetic: false
        })
    );
    assert_eq!(
        decode_request(r#"{"cmd":"session_end","session":null}"#),
        Ok(Request::SessionEnd { session: None })
    );
}

#[test]
fn clones_are_equal() {
    let request = Request::MarkActive {
        session: Some("s".into()),
        synthetic: true,
    };
    assert_eq!(request.clone(), request);
    let response = Response::FrontendEvent {
        event: FrontendEvent::Deliver {
            text: "hi".into(),
            submit: true,
        },
        seq: 3,
    };
    assert_eq!(response.clone(), response);
}

#[test]
fn the_names_of_members_mean_nothing_to_the_reader() {
    for value in ["true", "\"5\"", "\"x\"", "null"] {
        let line = format!("{{\"$serde_json::private::RawValue\":{value},\"ok\":\"done\"}}");
        assert_eq!(decode_response(&line), Ok(Response::Done));
    }
}
