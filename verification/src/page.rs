//! The settings page of the integration.
//!
//! It shows the connection to the daemon, the state of the speech queue, the
//! readiness of the models, and a test of the speech recognition. What stands
//! on the page is computed here; the editor's widgets render it.

use crate::client::{
    error_text, line_response, line_text, parse_line, request_line, ClientError, ClientErrorView,
};
use crate::connection::{describe, Status, StatusView};
use crate::json::{
    compact_text, json_shown, member_view, member_views, object_members, object_text, plain,
    plain_members, read_object, show_json, signed_text, write_signed, Json, JsonView, Member,
    MemberView,
};
use crate::lines::{
    left_over, lemma_first_found, lemma_line_end, lemma_nothing_found, lines, scanned, utf8_error,
    LineReader,
};
use crate::protocol::{
    request_text, response_on, terminal, Request, RequestView, Response, ResponseView,
};
use crate::text::{blank, decimal, decimal_text, is_blank};
use vstd::prelude::*;
use vstd::utf8::{decode_utf8, valid_utf8};

verus! {

// --- The speech queue ---

/// A snapshot of the speech queue.
#[derive(Clone, Copy, Debug, PartialEq, Eq, Structural)]
pub struct QueueSnapshot {
    pub tts_active: bool,
    pub queued: usize,
    pub paused: bool,
    pub muted: bool,
}

/// The wording of a reply that does not answer the status request.
pub const UNEXPECTED_STATUS: &'static str = "Unexpected reply to the status request.";

/// The wording of a reply that does not answer the model-status request.
pub const UNEXPECTED_MODEL_STATUS: &'static str = "Unexpected reply to the model-status request.";

/// Why a request of a fetch has no reply.
#[derive(Debug, PartialEq, Eq)]
pub enum FetchError {
    /// There was no connection to the daemon, for this reason.
    Unreachable(String),
    /// The exchange failed, for this reason.
    Failed(String),
}

/// What a [`FetchError`] says.
pub enum FetchErrorView {
    Unreachable(Seq<char>),
    Failed(Seq<char>),
}

impl View for FetchError {
    type V = FetchErrorView;

    open spec fn view(&self) -> FetchErrorView {
        match self {
            FetchError::Unreachable(message) => FetchErrorView::Unreachable(message@),
            FetchError::Failed(message) => FetchErrorView::Failed(message@),
        }
    }
}

/// Why a request has no reply, from whether there was a connection and the
/// error. Nothing is said of the words of an error.
pub fn fetch_failed(connected: bool, error: &anyhow::Error) -> (failure: FetchError)
    ensures
        failure is Unreachable <==> !connected,
        failure is Failed <==> connected,
{
    let message = describe(error);
    if connected {
        FetchError::Failed(message)
    } else {
        FetchError::Unreachable(message)
    }
}

/// What a reply or a failure says.
pub open spec fn answer_view(reply: Result<Response, FetchError>) -> Result<
    ResponseView,
    FetchErrorView,
> {
    match reply {
        Ok(response) => Ok(response@),
        Err(error) => Err(error@),
    }
}

/// What a reply to the status request says of the queue. `None` where the
/// daemon is unreachable.
pub open spec fn queue_answer(reply: Result<ResponseView, FetchErrorView>) -> Option<
    Result<QueueSnapshot, Seq<char>>,
> {
    match reply {
        Ok(ResponseView::Status { tts_active, queued, paused, muted }) => Some(
            Ok(QueueSnapshot { tts_active, queued, paused, muted }),
        ),
        Ok(ResponseView::Error { message }) => Some(Err(message)),
        Ok(_) => Some(Err(UNEXPECTED_STATUS@)),
        Err(FetchErrorView::Failed(message)) => Some(Err(message)),
        Err(FetchErrorView::Unreachable(_)) => None,
    }
}

/// What a reply to the model-status request says of the models.
pub open spec fn model_answer(reply: Result<ResponseView, FetchErrorView>) -> Result<
    JsonView,
    Seq<char>,
> {
    match reply {
        Ok(ResponseView::ModelStatus { status }) => Ok(status),
        Ok(ResponseView::Error { message }) => Err(message),
        Ok(_) => Err(UNEXPECTED_MODEL_STATUS@),
        Err(FetchErrorView::Failed(message)) | Err(FetchErrorView::Unreachable(message)) => Err(
            message,
        ),
    }
}

/// What a fetched queue snapshot says.
pub open spec fn queue_view(queue: Result<QueueSnapshot, String>) -> Result<
    QueueSnapshot,
    Seq<char>,
> {
    match queue {
        Ok(queue) => Ok(queue),
        Err(message) => Err(message@),
    }
}

/// What a fetched model status says.
pub open spec fn model_view(model: Result<Json, String>) -> Result<JsonView, Seq<char>> {
    match model {
        Ok(status) => Ok(status@),
        Err(message) => Err(message@),
    }
}

/// What a queue that may not be there says.
pub open spec fn queue_option(queue: Option<Result<QueueSnapshot, String>>) -> Option<
    Result<QueueSnapshot, Seq<char>>,
> {
    match queue {
        Some(queue) => Some(queue_view(queue)),
        None => None,
    }
}

/// What a model status that may not be there says.
pub open spec fn model_option(model: Option<Result<Json, String>>) -> Option<
    Result<JsonView, Seq<char>>,
> {
    match model {
        Some(model) => Some(model_view(model)),
        None => None,
    }
}

/// The queue snapshot in a reply to the status request. `None` where the
/// daemon is unreachable.
pub fn queue_reply(reply: Result<Response, FetchError>) -> (queue: Option<
    Result<QueueSnapshot, String>,
>)
    ensures
        queue_option(queue) == queue_answer(answer_view(reply)),
{
    match reply {
        Ok(Response::Status { tts_active, queued, paused, muted }) => Some(
            Ok(QueueSnapshot { tts_active, queued, paused, muted }),
        ),
        Ok(Response::Error { message }) => Some(Err(message)),
        Ok(_) => Some(Err(UNEXPECTED_STATUS.to_string())),
        Err(FetchError::Failed(message)) => Some(Err(message)),
        Err(FetchError::Unreachable(_)) => None,
    }
}

/// The model status in a reply to the model-status request.
pub fn model_reply(reply: Result<Response, FetchError>) -> (model: Result<Json, String>)
    ensures
        model_view(model) == model_answer(answer_view(reply)),
{
    match reply {
        Ok(Response::ModelStatus { status }) => Ok(status),
        Ok(Response::Error { message }) => Err(message),
        Ok(_) => Err(UNEXPECTED_MODEL_STATUS.to_string()),
        Err(FetchError::Failed(message)) => Err(message),
        Err(FetchError::Unreachable(message)) => Err(message),
    }
}

// --- The recognition test ---

/// Where a recognition test stands.
#[derive(Debug, PartialEq, Eq)]
pub enum TestRecognition {
    Idle,
    /// The daemon was asked to start.
    Starting,
    Listening { partial: String },
    Finished { transcript: String },
    Failed { message: String },
}

/// What a [`TestRecognition`] says.
pub enum TestView {
    Idle,
    Starting,
    Listening { partial: Seq<char> },
    Finished { transcript: Seq<char> },
    Failed { message: Seq<char> },
}

impl View for TestRecognition {
    type V = TestView;

    open spec fn view(&self) -> TestView {
        match self {
            TestRecognition::Idle => TestView::Idle,
            TestRecognition::Starting => TestView::Starting,
            TestRecognition::Listening { partial } => TestView::Listening { partial: partial@ },
            TestRecognition::Finished { transcript } => TestView::Finished {
                transcript: transcript@,
            },
            TestRecognition::Failed { message } => TestView::Failed { message: message@ },
        }
    }
}

/// Progress of a recognition test.
#[derive(Debug, PartialEq, Eq)]
pub enum TestEvent {
    Listening,
    Partial(String),
    Transcript(String),
    Failed(String),
}

/// What a [`TestEvent`] says.
pub enum TestEventView {
    Listening,
    Partial(Seq<char>),
    Transcript(Seq<char>),
    Failed(Seq<char>),
}

impl View for TestEvent {
    type V = TestEventView;

    open spec fn view(&self) -> TestEventView {
        match self {
            TestEvent::Listening => TestEventView::Listening,
            TestEvent::Partial(text) => TestEventView::Partial(text@),
            TestEvent::Transcript(text) => TestEventView::Transcript(text@),
            TestEvent::Failed(message) => TestEventView::Failed(message@),
        }
    }
}

/// Where a test stands behind an event.
pub open spec fn test_after(event: TestEventView) -> TestView {
    match event {
        TestEventView::Listening => TestView::Listening { partial: seq![] },
        TestEventView::Partial(text) => TestView::Listening { partial: text },
        TestEventView::Transcript(text) => TestView::Finished { transcript: text },
        TestEventView::Failed(message) => TestView::Failed { message },
    }
}

/// Whether a test is running.
pub open spec fn running(test: TestView) -> bool {
    test is Starting || test is Listening
}

/// A reply that answers something else than a recognition test.
#[derive(Debug, PartialEq, Eq)]
pub enum OtherReply {
    Status(QueueSnapshot),
    Done,
    ModelStatus(Json),
    Unknown,
}

/// What an [`OtherReply`] says.
pub enum OtherReplyView {
    Status(QueueSnapshot),
    Done,
    ModelStatus(JsonView),
    Unknown,
}

impl View for OtherReply {
    type V = OtherReplyView;

    open spec fn view(&self) -> OtherReplyView {
        match self {
            OtherReply::Status(queue) => OtherReplyView::Status(*queue),
            OtherReply::Done => OtherReplyView::Done,
            OtherReply::ModelStatus(status) => OtherReplyView::ModelStatus(status@),
            OtherReply::Unknown => OtherReplyView::Unknown,
        }
    }
}

/// Why a recognition test failed.
#[derive(Debug, PartialEq, Eq)]
pub enum TestError {
    /// The exchange with the daemon failed.
    Client(ClientError),
    /// The daemon reported an error.
    Reported { message: String },
    /// The daemon answered with something else than a transcript.
    Unexpected { reply: OtherReply },
    /// The daemon closed the connection before the transcript.
    Closed,
}

/// What a [`TestError`] says.
pub enum TestErrorView {
    Client(ClientErrorView),
    Reported { message: Seq<char> },
    Unexpected { reply: OtherReplyView },
    Closed,
}

impl View for TestError {
    type V = TestErrorView;

    open spec fn view(&self) -> TestErrorView {
        match self {
            TestError::Client(error) => TestErrorView::Client(error@),
            TestError::Reported { message } => TestErrorView::Reported { message: message@ },
            TestError::Unexpected { reply } => TestErrorView::Unexpected { reply: reply@ },
            TestError::Closed => TestErrorView::Closed,
        }
    }
}

/// What a line means during a recognition test.
pub open spec fn test_line(line: Seq<u8>) -> Option<Result<TestEventView, TestErrorView>> {
    match line_text(line) {
        Err(error) => Some(Err(TestErrorView::Client(error))),
        Ok(text) => if blank(text) {
            None
        } else {
            match line_response(line) {
                Err(error) => Some(Err(TestErrorView::Client(error))),
                Ok(ResponseView::Listening) => Some(Ok(TestEventView::Listening)),
                Ok(ResponseView::Partial { text }) => Some(Ok(TestEventView::Partial(text))),
                Ok(ResponseView::Transcript { text }) => Some(Ok(TestEventView::Transcript(text))),
                Ok(ResponseView::Error { message }) => Some(
                    Err(TestErrorView::Reported { message }),
                ),
                Ok(ResponseView::Status { tts_active, queued, paused, muted }) => {
                    let queue = QueueSnapshot { tts_active, queued, paused, muted };
                    Some(Err(unexpected(OtherReplyView::Status(queue))))
                },
                Ok(ResponseView::Done) => Some(Err(unexpected(OtherReplyView::Done))),
                Ok(ResponseView::ModelStatus { status }) => Some(
                    Err(unexpected(OtherReplyView::ModelStatus(status))),
                ),
                Ok(ResponseView::Unknown) => Some(Err(unexpected(OtherReplyView::Unknown))),
                Ok(ResponseView::FrontendEvent { .. }) => None,
            }
        },
    }
}

/// The error of a reply that is none to a recognition test.
pub open spec fn unexpected(reply: OtherReplyView) -> TestErrorView {
    TestErrorView::Unexpected { reply }
}

/// [`test_line`] as a value.
pub open spec fn test_meaning() -> spec_fn(Seq<u8>) -> Option<
    Result<TestEventView, TestErrorView>,
> {
    |line: Seq<u8>| test_line(line)
}

/// What a read event says.
pub open spec fn test_event_view(event: Option<Result<TestEvent, TestError>>) -> Option<
    Result<TestEventView, TestErrorView>,
> {
    match event {
        Some(Ok(event)) => Some(Ok(event@)),
        Some(Err(error)) => Some(Err(error@)),
        None => None,
    }
}

/// The reading side of a recognition test.
pub struct TestStream {
    lines: LineReader,
}

impl View for TestStream {
    type V = Seq<u8>;

    closed spec fn view(&self) -> Seq<u8> {
        self.lines@
    }
}

impl TestStream {
    /// Takes in bytes that arrived.
    pub fn receive(&mut self, chunk: &[u8])
        ensures
            final(self)@ == old(self)@ + chunk@,
    {
        self.lines.receive(chunk);
    }

    /// The next progress of what has arrived, or why the test failed, and
    /// `None` while more has to be read. Nothing is to be read behind a
    /// transcript or a failure.
    pub fn next(&mut self) -> (event: Option<Result<TestEvent, TestError>>)
        ensures
            (test_event_view(event), final(self)@) == scanned(old(self)@, test_meaning()),
    {
        let ghost bytes = self.lines@;
        loop
            invariant
                scanned(self.lines@, test_meaning()) == scanned(bytes, test_meaning()),
                bytes == old(self)@,
            decreases self.lines@.len(),
        {
            let ghost before = self.lines@;
            proof {
                lemma_line_end(before);
            }
            match self.lines.next_line() {
                None => {
                    return None;
                },
                Some(Err(reason)) => {
                    return Some(Err(TestError::Client(ClientError::Encoding { reason })));
                },
                Some(Ok(text)) => {
                    if !is_blank(text.as_str()) {
                        match parse_line(text) {
                            Err(error) => {
                                return Some(Err(TestError::Client(error)));
                            },
                            Ok(Response::Listening) => {
                                return Some(Ok(TestEvent::Listening));
                            },
                            Ok(Response::Partial { text }) => {
                                return Some(Ok(TestEvent::Partial(text)));
                            },
                            Ok(Response::Transcript { text }) => {
                                return Some(Ok(TestEvent::Transcript(text)));
                            },
                            Ok(Response::Error { message }) => {
                                return Some(Err(TestError::Reported { message }));
                            },
                            Ok(Response::Status { tts_active, queued, paused, muted }) => {
                                let queue = QueueSnapshot { tts_active, queued, paused, muted };
                                let reply = OtherReply::Status(queue);
                                return Some(Err(TestError::Unexpected { reply }));
                            },
                            Ok(Response::Done) => {
                                let reply = OtherReply::Done;
                                return Some(Err(TestError::Unexpected { reply }));
                            },
                            Ok(Response::ModelStatus { status }) => {
                                let reply = OtherReply::ModelStatus(status);
                                return Some(Err(TestError::Unexpected { reply }));
                            },
                            Ok(Response::Unknown) => {
                                let reply = OtherReply::Unknown;
                                return Some(Err(TestError::Unexpected { reply }));
                            },
                            Ok(Response::FrontendEvent { .. }) => {},
                        }
                    }
                },
            }
        }
    }

    /// The error of a connection that ended before the transcript.
    pub fn closed(&self) -> (error: TestError)
        ensures
            error@ == TestErrorView::Closed,
    {
        TestError::Closed
    }
}

/// Whether a test is over behind this event.
pub fn ends_test(event: &TestEvent) -> (yes: bool)
    ensures
        yes == (event@ is Transcript || event@ is Failed),
{
    matches!(event, TestEvent::Transcript(_) | TestEvent::Failed(_))
}

// --- Wording of a failed test ---

/// A truth value in words.
pub open spec fn bool_text(value: bool) -> Seq<char> {
    if value {
        "true"@
    } else {
        "false"@
    }
}

/// A reply as `{:?}` shows it, from the model status as that is shown.
pub open spec fn reply_text(reply: OtherReplyView, shown: Seq<char>) -> Seq<char> {
    match reply {
        OtherReplyView::Status(queue) => "Status { tts_active: "@ + bool_text(queue.tts_active)
            + ", queued: "@ + decimal_text(queue.queued as nat) + ", paused: "@ + bool_text(
            queue.paused,
        ) + ", muted: "@ + bool_text(queue.muted) + " }"@,
        OtherReplyView::Done => "Done"@,
        OtherReplyView::ModelStatus(_) => "ModelStatus { status: "@ + shown + " }"@,
        OtherReplyView::Unknown => "Unknown"@,
    }
}

/// A model status as it is shown.
pub open spec fn status_shown(status: JsonView) -> Seq<char> {
    match json_shown(compact_text(status)) {
        Some(shown) => shown,
        None => compact_text(status),
    }
}

/// The model status of a reply as it is shown.
pub open spec fn reply_shown(reply: OtherReplyView) -> Seq<char> {
    match reply {
        OtherReplyView::ModelStatus(status) => status_shown(status),
        _ => seq![],
    }
}

/// Why a test failed, in words, with the reason that a malformed line is no
/// response.
pub open spec fn test_error_text(error: TestError, reason: Seq<char>) -> Seq<char> {
    match error {
        TestError::Client(error) => error_text(error, reason),
        TestError::Reported { message } => message@,
        TestError::Unexpected { reply } => "unexpected daemon reply to test recognition: "@
            + reply_text(reply@, reply_shown(reply@)),
        TestError::Closed => "the daemon closed the connection before a final transcript"@,
    }
}

fn bool_word(value: bool) -> (word: &'static str)
    ensures
        word@ == bool_text(value),
{
    if value {
        "true"
    } else {
        "false"
    }
}

/// A reply as `{:?}` shows it, from the model status as that is shown.
pub fn reply_message(reply: &OtherReply, shown: &str) -> (text: String)
    ensures
        text@ == reply_text(reply@, shown@),
{
    match reply {
        OtherReply::Status(queue) => {
            let mut text = "Status { tts_active: ".to_string();
            text.append(bool_word(queue.tts_active));
            text.append(", queued: ");
            text.append(decimal(queue.queued as u64).as_str());
            text.append(", paused: ");
            text.append(bool_word(queue.paused));
            text.append(", muted: ");
            text.append(bool_word(queue.muted));
            text.append(" }");
            text
        },
        OtherReply::Done => "Done".to_string(),
        OtherReply::ModelStatus(_) => {
            let mut text = "ModelStatus { status: ".to_string();
            text.append(shown);
            text.append(" }");
            text
        },
        OtherReply::Unknown => "Unknown".to_string(),
    }
}

impl TestError {
    /// The error in words. Of a malformed line `reason` says why it is no
    /// response; of the other errors it says nothing.
    pub fn message(&self, reason: &str) -> (message: String)
        ensures
            message@ == test_error_text(*self, reason@),
    {
        match self {
            TestError::Client(error) => error.message(reason),
            TestError::Reported { message } => message.clone(),
            TestError::Unexpected { reply } => {
                let shown = match reply {
                    OtherReply::ModelStatus(status) => {
                        let text = status.to_text();
                        match show_json(text.as_str()) {
                            Some(shown) => shown,
                            None => text,
                        }
                    },
                    _ => String::new(),
                };
                assert(shown@ =~= reply_shown(reply@));
                let mut text = "unexpected daemon reply to test recognition: ".to_string();
                text.append(reply_message(reply, shown.as_str()).as_str());
                text
            },
            TestError::Closed => "the daemon closed the connection before a final transcript".to_string(),
        }
    }

    /// The progress that tells of the failure.
    pub fn to_event(&self, reason: &str) -> (event: TestEvent)
        ensures
            event@ == TestEventView::Failed(test_error_text(*self, reason@)),
    {
        TestEvent::Failed(self.message(reason))
    }
}

// --- The page's state ---

/// What the page holds.
pub struct DontSpeakPageState {
    /// `None` while the queue snapshot is fetched, or the daemon is
    /// unreachable.
    queue: Option<Result<QueueSnapshot, String>>,
    /// `None` while the model status is fetched, or behind the loss of the
    /// connection.
    model_status: Option<Result<Json, String>>,
    test: TestRecognition,
}

/// What a [`DontSpeakPageState`] says.
pub struct PageView {
    pub queue: Option<Result<QueueSnapshot, Seq<char>>>,
    pub model_status: Option<Result<JsonView, Seq<char>>>,
    pub test: TestView,
}

impl View for DontSpeakPageState {
    type V = PageView;

    closed spec fn view(&self) -> PageView {
        PageView {
            queue: queue_option(self.queue),
            model_status: model_option(self.model_status),
            test: self.test@,
        }
    }
}

/// The page behind the replies of a fetch.
pub open spec fn fetched(
    test: TestView,
    status: Result<ResponseView, FetchErrorView>,
    model_status: Result<ResponseView, FetchErrorView>,
) -> PageView {
    PageView {
        queue: queue_answer(status),
        model_status: Some(model_answer(model_status)),
        test,
    }
}

/// The page with nothing fetched.
pub open spec fn unfetched(test: TestView) -> PageView {
    PageView { queue: None, model_status: None, test }
}

/// What the editor has to do for the page.
#[derive(Clone, Copy, Debug, PartialEq, Eq, Structural)]
pub enum PageTask {
    /// Send the status and the model-status request, and hand the replies to
    /// [`DontSpeakPageState::refreshed`]. An earlier fetch is cancelled.
    Fetch,
    /// Cancel the fetch and the test that run.
    CancelAll,
}

impl DontSpeakPageState {
    /// The page as it opens, which fetches at once.
    pub fn new() -> (made: (DontSpeakPageState, PageTask))
        ensures
            made.0@ == unfetched(TestView::Idle),
            made.1 is Fetch,
    {
        (
            DontSpeakPageState { queue: None, model_status: None, test: TestRecognition::Idle },
            PageTask::Fetch,
        )
    }

    /// The connection changed: what is shown is fetched anew, or dropped where
    /// the daemon went away.
    pub fn handle_status_changed(&mut self, connected: bool) -> (task: PageTask)
        ensures
            connected ==> final(self)@ == unfetched(old(self)@.test) && task is Fetch,
            !connected ==> final(self)@ == unfetched(TestView::Idle) && task is CancelAll,
    {
        if connected {
            self.refresh()
        } else {
            self.queue = None;
            self.model_status = None;
            self.test = TestRecognition::Idle;
            PageTask::CancelAll
        }
    }

    /// Has the queue snapshot and the model status fetched.
    pub fn refresh(&mut self) -> (task: PageTask)
        ensures
            final(self)@ == unfetched(old(self)@.test),
            task is Fetch,
    {
        self.queue = None;
        self.model_status = None;
        PageTask::Fetch
    }

    /// The requests of a fetch.
    pub fn fetch_requests() -> (requests: (Request, Request))
        ensures
            requests.0@ == RequestView::Status,
            requests.1@ == RequestView::ModelStatus,
    {
        (Request::Status, Request::ModelStatus)
    }

    /// Takes in the replies of a fetch. Without a connection to the daemon there
    /// is no queue to tell of.
    pub fn refreshed(
        &mut self,
        status: Result<Response, FetchError>,
        model_status: Result<Response, FetchError>,
    )
        ensures
            final(self)@ == fetched(
                old(self)@.test,
                answer_view(status),
                answer_view(model_status),
            ),
    {
        self.queue = queue_reply(status);
        self.model_status = Some(model_reply(model_status));
    }

    pub fn test_running(&self) -> (yes: bool)
        ensures
            yes == running(self@.test),
    {
        matches!(self.test, TestRecognition::Starting | TestRecognition::Listening { .. })
    }

    /// Starts a recognition test: the line to write to a fresh connection, and
    /// the reader of what follows. `None` where a test is running.
    pub fn start_test(&mut self) -> (exchange: Option<(String, TestStream)>)
        ensures
            running(old(self)@.test) ==> exchange is None && final(self)@ == old(self)@,
            !running(old(self)@.test) ==> {
                &&& exchange matches Some((line, stream)) && line@ == request_text(
                    RequestView::TestRecognitionStart,
                ).push('\n') && stream@ == Seq::<u8>::empty()
                &&& final(self)@ == (PageView { test: TestView::Starting, ..old(self)@ })
            },
    {
        if self.test_running() {
            return None;
        }
        self.test = TestRecognition::Starting;
        let line = request_line(&Request::TestRecognitionStart);
        Some((line, TestStream { lines: LineReader::new() }))
    }

    /// The request that stops the test, for a connection of its own: the
    /// test's own connection then brings the transcript.
    pub fn stop_test(&self) -> (request: Request)
        ensures
            request@ == RequestView::TestRecognitionStop,
    {
        Request::TestRecognitionStop
    }

    pub fn apply_test_event(&mut self, event: TestEvent)
        ensures
            final(self)@ == (PageView { test: test_after(event@), ..old(self)@ }),
    {
        self.test = match event {
            TestEvent::Listening => {
                let partial = String::new();
                assert(partial@ =~= seq![]);
                TestRecognition::Listening { partial }
            },
            TestEvent::Partial(text) => TestRecognition::Listening { partial: text },
            TestEvent::Transcript(text) => TestRecognition::Finished { transcript: text },
            TestEvent::Failed(message) => TestRecognition::Failed { message },
        };
    }
}

/// Which settings window observes the page's state.
pub struct PageObserver {
    pub window: Option<u64>,
}

impl PageObserver {
    /// Tells whether this window has to observe the state from now on: it does
    /// where another window, or none, was the last to show the page.
    pub fn shown_in(&mut self, window: u64) -> (observe: bool)
        ensures
            observe == (old(self).window != Some(window)),
            final(self).window == Some(window),
    {
        let known = match self.window {
            Some(last) => last == window,
            None => false,
        };
        self.window = Some(window);
        !known
    }
}

// --- What stands on the page ---

/// How a line is coloured.
#[derive(Clone, Copy, Debug, PartialEq, Eq, Structural)]
pub enum LineColor {
    Normal,
    Muted,
    Accent,
    Error,
}

/// A line of text.
#[derive(Debug, PartialEq, Eq)]
pub struct Line {
    pub text: String,
    pub color: LineColor,
}

/// What a [`Line`] says.
pub type LineView = (Seq<char>, LineColor);

impl View for Line {
    type V = LineView;

    open spec fn view(&self) -> LineView {
        (self.text@, self.color)
    }
}

/// What lines say.
pub open spec fn line_views(lines: Seq<Line>) -> Seq<LineView> {
    lines.map_values(|line: Line| line@)
}

/// An icon before a row's value.
#[derive(Clone, Copy, Debug, PartialEq, Eq, Structural)]
pub enum RowIcon {
    Absent,
    /// A check mark in the colour of success.
    Ready,
    /// A muted cross.
    NotReady,
}

/// A row with a name and a value.
#[derive(Debug, PartialEq, Eq)]
pub struct Row {
    pub name: String,
    pub value: String,
    pub icon: RowIcon,
}

/// What a [`Row`] says.
pub type RowView = (Seq<char>, Seq<char>, RowIcon);

impl View for Row {
    type V = RowView;

    open spec fn view(&self) -> RowView {
        (self.name@, self.value@, self.icon)
    }
}

/// What rows say.
pub open spec fn row_views(rows: Seq<Row>) -> Seq<RowView> {
    rows.map_values(|row: Row| row@)
}

/// A section below its heading: rows, and a line behind them.
#[derive(Debug, PartialEq, Eq)]
pub struct Section {
    pub rows: Vec<Row>,
    pub note: Option<Line>,
}

/// What a [`Section`] says.
pub type SectionView = (Seq<RowView>, Option<LineView>);

impl View for Section {
    type V = SectionView;

    open spec fn view(&self) -> SectionView {
        (
            row_views(self.rows@),
            match self.note {
                Some(line) => Some(line@),
                None => None,
            },
        )
    }
}

/// The page's buttons.
#[derive(Clone, Copy, Debug, PartialEq, Eq, Structural)]
pub enum PageButton {
    /// Opens [`INSTALL_URL`].
    Install,
    /// Starts the connection anew.
    CheckAgain,
    StartTest,
    StopTest,
}

/// Where the daemon is to be had.
pub const INSTALL_URL: &'static str = "https://dontspeak.org";

/// What a button says.
pub fn button_label(button: PageButton) -> (label: &'static str)
    ensures
        label@ == match button {
            PageButton::Install => "Get DontSpeak"@,
            PageButton::CheckAgain => "Check Again"@,
            PageButton::StartTest => "Start Test"@,
            PageButton::StopTest => "Stop"@,
        },
{
    match button {
        PageButton::Install => "Get DontSpeak",
        PageButton::CheckAgain => "Check Again",
        PageButton::StartTest => "Start Test",
        PageButton::StopTest => "Stop",
    }
}

/// A card that stands in place of the sections.
#[derive(Debug, PartialEq, Eq)]
pub struct Card {
    pub lines: Vec<Line>,
    pub buttons: Vec<PageButton>,
}

/// What a [`Card`] says.
pub type CardView = (Seq<LineView>, Seq<PageButton>);

impl View for Card {
    type V = CardView;

    open spec fn view(&self) -> CardView {
        (line_views(self.lines@), self.buttons@)
    }
}

/// The card of a status. `None` where the sections are shown, which is so while
/// the daemon is connected.
pub open spec fn status_card(status: Option<StatusView>) -> Option<CardView> {
    match status {
        None => Some(
            (
                seq![
                    (
                        "The DontSpeak integration did not initialize in this build of Zed."@,
                        LineColor::Muted,
                    ),
                ],
                seq![],
            ),
        ),
        Some(StatusView::Absent) => Some(
            (
                seq![
                    ("DontSpeak is not installed or not running"@, LineColor::Normal),
                    (
                        "DontSpeak provides CapsLock dictation and spoken narration of agent replies. Zed connects to its local daemon automatically once it is running."@,
                        LineColor::Muted,
                    ),
                ],
                seq![PageButton::Install, PageButton::CheckAgain],
            ),
        ),
        Some(StatusView::Disabled) => Some(
            (
                seq![
                    (
                        "The DontSpeak integration is turned off. Enable it on the Voice page to connect to the daemon."@,
                        LineColor::Muted,
                    ),
                ],
                seq![],
            ),
        ),
        Some(StatusView::Connecting) => Some(
            (seq![("Connecting to the DontSpeak daemon…"@, LineColor::Muted)], seq![]),
        ),
        Some(StatusView::Error(error)) => Some(
            (
                seq![
                    ("Failed to connect to the DontSpeak daemon"@, LineColor::Normal),
                    (error, LineColor::Error),
                ],
                seq![PageButton::CheckAgain],
            ),
        ),
        Some(StatusView::Connected) => None,
    }
}

/// What an optional status says.
pub open spec fn status_option(status: Option<Status>) -> Option<StatusView> {
    match status {
        Some(status) => Some(status@),
        None => None,
    }
}

/// What an optional card says.
pub open spec fn card_option(card: Option<Card>) -> Option<CardView> {
    match card {
        Some(card) => Some(card@),
        None => None,
    }
}

/// A line.
fn line(text: &str, color: LineColor) -> (made: Line)
    ensures
        made@ == (text@, color),
{
    Line { text: text.to_string(), color }
}

/// What the page shows in place of its sections, if anything. There is no
/// status where the integration did not initialize.
pub fn page_card(status: &Option<Status>) -> (card: Option<Card>)
    ensures
        card_option(card) == status_card(status_option(*status)),
{
    let card = match status {
        None => Card {
            lines: vec![
                line(
                    "The DontSpeak integration did not initialize in this build of Zed.",
                    LineColor::Muted,
                ),
            ],
            buttons: Vec::new(),
        },
        Some(Status::Absent) => Card {
            lines: vec![
                line("DontSpeak is not installed or not running", LineColor::Normal),
                line(
                    "DontSpeak provides CapsLock dictation and spoken narration of agent replies. Zed connects to its local daemon automatically once it is running.",
                    LineColor::Muted,
                ),
            ],
            buttons: vec![PageButton::Install, PageButton::CheckAgain],
        },
        Some(Status::Disabled) => Card {
            lines: vec![
                line(
                    "The DontSpeak integration is turned off. Enable it on the Voice page to connect to the daemon.",
                    LineColor::Muted,
                ),
            ],
            buttons: Vec::new(),
        },
        Some(Status::Connecting) => Card {
            lines: vec![line("Connecting to the DontSpeak daemon…", LineColor::Muted)],
            buttons: Vec::new(),
        },
        Some(Status::Error(error)) => Card {
            lines: vec![
                line("Failed to connect to the DontSpeak daemon", LineColor::Normal),
                line(error.as_str(), LineColor::Error),
            ],
            buttons: vec![PageButton::CheckAgain],
        },
        Some(Status::Connected) => {
            return None;
        },
    };
    proof {
        let wanted: CardView = status_card(status_option(*status)).unwrap();
        assert(card@.0 =~= wanted.0);
        assert(card@.1 =~= wanted.1);
    }
    Some(card)
}

// --- The daemon section ---

/// What the queue does.
pub open spec fn speech_text(queue: QueueSnapshot) -> Seq<char> {
    if queue.tts_active {
        "Speaking ("@ + decimal_text(queue.queued as nat) + " queued)"@
    } else if queue.queued > 0 {
        "Idle ("@ + decimal_text(queue.queued as nat) + " queued)"@
    } else {
        "Idle"@
    }
}

/// Yes or no.
pub open spec fn yes_no(value: bool) -> Seq<char> {
    if value {
        "Yes"@
    } else {
        "No"@
    }
}

/// The row that tells of the connection.
pub open spec fn connected_row() -> RowView {
    ("Status"@, "Connected"@, RowIcon::Ready)
}

/// The section on the daemon: the connection, and the queue below it.
pub open spec fn daemon_section_of(queue: Option<Result<QueueSnapshot, Seq<char>>>) -> SectionView {
    match queue {
        None => (seq![connected_row()], Some(("Loading queue state…"@, LineColor::Muted))),
        Some(Err(error)) => (seq![connected_row()], Some((error, LineColor::Error))),
        Some(Ok(queue)) => (
            seq![
                connected_row(),
                ("Speech"@, speech_text(queue), RowIcon::Absent),
                ("Paused"@, yes_no(queue.paused), RowIcon::Absent),
                ("Muted"@, yes_no(queue.muted), RowIcon::Absent),
            ],
            None,
        ),
    }
}

/// What the queue does.
fn speech(queue: &QueueSnapshot) -> (text: String)
    ensures
        text@ == speech_text(*queue),
{
    if queue.tts_active {
        let mut text = "Speaking (".to_string();
        text.append(decimal(queue.queued as u64).as_str());
        text.append(" queued)");
        text
    } else if queue.queued > 0 {
        let mut text = "Idle (".to_string();
        text.append(decimal(queue.queued as u64).as_str());
        text.append(" queued)");
        text
    } else {
        "Idle".to_string()
    }
}

fn yes_or_no(value: bool) -> (word: String)
    ensures
        word@ == yes_no(value),
{
    if value {
        "Yes".to_string()
    } else {
        "No".to_string()
    }
}

/// A row.
fn status_row(name: &str, value: String, icon: RowIcon) -> (row: Row)
    ensures
        row@ == (name@, value@, icon),
{
    Row { name: name.to_string(), value, icon }
}

impl DontSpeakPageState {
    /// The section on the daemon, while it is connected.
    pub fn daemon_section(&self) -> (section: Section)
        ensures
            section@ == daemon_section_of(self@.queue),
    {
        let mut rows = vec![status_row("Status", "Connected".to_string(), RowIcon::Ready)];
        let note = match &self.queue {
            None => Some(line("Loading queue state…", LineColor::Muted)),
            Some(Err(error)) => Some(line(error.as_str(), LineColor::Error)),
            Some(Ok(queue)) => {
                rows.push(status_row("Speech", speech(queue), RowIcon::Absent));
                rows.push(status_row("Paused", yes_or_no(queue.paused), RowIcon::Absent));
                rows.push(status_row("Muted", yes_or_no(queue.muted), RowIcon::Absent));
                None
            },
        };
        let section = Section { rows, note };
        assert(section@.0 =~= daemon_section_of(self@.queue).0);
        section
    }
}

// --- The models section ---

/// The members of an object's text; none where it is no object.
pub open spec fn members_or_none(text: Seq<char>) -> Seq<MemberView> {
    match object_members(text) {
        Some(members) => members,
        None => seq![],
    }
}

/// Members below a name.
pub open spec fn nested_rows(name: Seq<char>, members: Seq<MemberView>) -> Seq<MemberView> {
    members.map_values(|member: MemberView| (name + seq!['.'] + member.0, member.1))
}

/// The rows of one member: an object's own members, or the member itself.
pub open spec fn member_rows(member: MemberView) -> Seq<MemberView> {
    match member.1 {
        JsonView::Object(text) => nested_rows(member.0, members_or_none(text)),
        _ => seq![member],
    }
}

/// The rows of members, in their order.
pub open spec fn all_rows(members: Seq<MemberView>) -> Seq<MemberView>
    decreases members.len(),
{
    if members.len() == 0 {
        seq![]
    } else {
        all_rows(members.drop_last()) + member_rows(members.last())
    }
}

/// The rows of a model status: its members and, one level down, those of the
/// objects among them. A status that is no object is a row of its own.
pub open spec fn rows_of(status: JsonView) -> Seq<MemberView> {
    match status {
        JsonView::Object(text) => all_rows(members_or_none(text)),
        _ => seq![("status"@, status)],
    }
}

/// The members of an object's text; none where it is no object.
fn read_members(text: &str) -> (members: Vec<Member>)
    ensures
        member_views(members@) == members_or_none(text@),
        forall|written: Seq<MemberView>| #[trigger]
            object_text(written) == text@ && plain_members(written) ==> member_views(members@)
                == written,
{
    match read_object(text) {
        Some(members) => members,
        None => {
            let members: Vec<Member> = Vec::new();
            assert(member_views(members@) =~= seq![]);
            members
        },
    }
}

/// The rows of members, in their order.
pub fn flatten_members(members: &Vec<Member>) -> (rows: Vec<Member>)
    ensures
        member_views(rows@) == all_rows(member_views(members@)),
{
    let ghost views = member_views(members@);
    proof {
        reveal_strlit(".");
        assert("."@ =~= seq!['.']);
    }
    let mut rows: Vec<Member> = Vec::new();
    let mut i: usize = 0;
    assert(member_views(rows@) =~= all_rows(views.take(0)));
    while i < members.len()
        invariant
            i <= members.len(),
            views == member_views(members@),
            member_views(rows@) == all_rows(views.take(i as int)),
            "."@ == seq!['.'],
        decreases members.len() - i,
    {
        let ghost before = member_views(rows@);
        proof {
            let done = views.take(i + 1);
            assert(done.drop_last() =~= views.take(i as int));
            assert(done.last() == member_view(members@[i as int]));
        }
        match &members[i].1 {
            Json::Object(text) => {
                let nested = read_members(text.as_str());
                let ghost below = nested_rows(members@[i as int].0@, member_views(nested@));
                let mut k: usize = 0;
                assert(member_views(rows@) =~= before + below.take(0));
                while k < nested.len()
                    invariant
                        i < members.len(),
                        k <= nested.len(),
                        below == nested_rows(members@[i as int].0@, member_views(nested@)),
                        member_views(rows@) == before + below.take(k as int),
                        "."@ == seq!['.'],
                    decreases nested.len() - k,
                {
                    let mut name = members[i].0.clone();
                    name.append(".");
                    name.append(nested[k].0.as_str());
                    let ghost so_far = member_views(rows@);
                    rows.push((name, nested[k].1.clone()));
                    assert(member_views(rows@) =~= so_far.push(below[k as int]));
                    assert(below.take(k + 1) =~= below.take(k as int).push(below[k as int]));
                    k += 1;
                }
                assert(below.take(below.len() as int) =~= below);
            },
            other => {
                rows.push((members[i].0.clone(), other.clone()));
                assert(member_views(rows@) =~= before + seq![views[i as int]]);
            },
        }
        i += 1;
    }
    assert(views.take(views.len() as int) =~= views);
    rows
}

/// The rows of a model status. Its shape is the daemon's own affair, so any
/// JSON is shown.
///
/// An object of plain values in compact form has its members as its rows.
pub fn model_status_rows(status: &Json) -> (rows: Vec<Member>)
    ensures
        member_views(rows@) == rows_of(status@),
        forall|written: Seq<MemberView>|
            status@ == JsonView::Object(#[trigger] object_text(written)) && plain_members(written)
                ==> member_views(rows@) == written,
{
    match status {
        Json::Object(text) => {
            proof {
                assert forall|written: Seq<MemberView>| #[trigger]
                    object_text(written) == text@ && plain_members(written) implies all_rows(
                    written,
                ) == written by {
                    lemma_plain_rows(written);
                }
            }
            let members = read_members(text.as_str());
            flatten_members(&members)
        },
        _ => {
            let rows = vec![("status".to_string(), status.clone())];
            assert(member_views(rows@) =~= seq![("status"@, status@)]);
            rows
        },
    }
}

/// What a row's value says.
pub open spec fn value_text(value: JsonView) -> Seq<char> {
    match value {
        JsonView::Bool(true) => "Ready"@,
        JsonView::Bool(false) => "Not ready"@,
        JsonView::Text(text) => text,
        JsonView::Unsigned(n) => decimal_text(n as nat),
        JsonView::Signed(n) => signed_text(n as int),
        JsonView::Float(text) => text,
        JsonView::Null => "—"@,
        JsonView::Array(text) => text,
        JsonView::Object(text) => text,
    }
}

/// The icon before a row's value.
pub open spec fn value_icon(value: JsonView) -> RowIcon {
    match value {
        JsonView::Bool(true) => RowIcon::Ready,
        JsonView::Bool(false) => RowIcon::NotReady,
        _ => RowIcon::Absent,
    }
}

/// A member as a row.
pub open spec fn model_row(member: MemberView) -> RowView {
    (member.0, value_text(member.1), value_icon(member.1))
}

/// The section on the models.
pub open spec fn models_section_of(model: Option<Result<JsonView, Seq<char>>>) -> SectionView {
    match model {
        None => (seq![], Some(("Loading model status…"@, LineColor::Muted))),
        Some(Err(error)) => (seq![], Some((error, LineColor::Error))),
        Some(Ok(status)) => (
            rows_of(status).map_values(|member: MemberView| model_row(member)),
            if rows_of(status).len() == 0 {
                Some(("The daemon reported no models."@, LineColor::Muted))
            } else {
                None
            },
        ),
    }
}

/// A member as a row.
fn show_member(member: &Member) -> (row: Row)
    ensures
        row@ == model_row(member_view(*member)),
{
    let (value, icon) = match &member.1 {
        Json::Bool(true) => ("Ready".to_string(), RowIcon::Ready),
        Json::Bool(false) => ("Not ready".to_string(), RowIcon::NotReady),
        Json::Text(text) => (text.clone(), RowIcon::Absent),
        Json::Unsigned(n) => (decimal(*n), RowIcon::Absent),
        Json::Signed(n) => (write_signed(*n), RowIcon::Absent),
        Json::Float(text) => (text.clone(), RowIcon::Absent),
        Json::Null => ("—".to_string(), RowIcon::Absent),
        Json::Array(text) => (text.clone(), RowIcon::Absent),
        Json::Object(text) => (text.clone(), RowIcon::Absent),
    };
    status_row(member.0.as_str(), value, icon)
}

impl DontSpeakPageState {
    /// The section on the models, while the daemon is connected.
    pub fn models_section(&self) -> (section: Section)
        ensures
            section@ == models_section_of(self@.model_status),
    {
        let status = match &self.model_status {
            None => {
                let section = Section {
                    rows: Vec::new(),
                    note: Some(line("Loading model status…", LineColor::Muted)),
                };
                assert(section@.0 =~= seq![]);
                return section;
            },
            Some(Err(error)) => {
                let section = Section {
                    rows: Vec::new(),
                    note: Some(line(error.as_str(), LineColor::Error)),
                };
                assert(section@.0 =~= seq![]);
                return section;
            },
            Some(Ok(status)) => status,
        };
        let members = model_status_rows(status);
        let ghost wanted = models_section_of(self@.model_status).0;
        let mut rows: Vec<Row> = Vec::new();
        let mut i: usize = 0;
        while i < members.len()
            invariant
                i <= members.len(),
                rows@.len() == i,
                member_views(members@) == rows_of(status@),
                wanted == rows_of(status@).map_values(|member: MemberView| model_row(member)),
                forall|k: int| 0 <= k < i ==> (#[trigger] rows@[k])@ == wanted[k],
            decreases members.len() - i,
        {
            assert(rows_of(status@)[i as int] == member_view(members@[i as int]));
            rows.push(show_member(&members[i]));
            i += 1;
        }
        let note = if members.len() == 0 {
            Some(line("The daemon reported no models.", LineColor::Muted))
        } else {
            None
        };
        assert(rows_of(status@).len() == members@.len());
        let section = Section { rows, note };
        assert(section@.0 =~= wanted);
        section
    }
}

// --- The test section ---

/// The button of the test section, and the lines below it.
#[derive(Debug, PartialEq, Eq)]
pub struct TestSection {
    pub button: PageButton,
    pub lines: Vec<Line>,
}

/// What a [`TestSection`] says.
pub type TestSectionView = (PageButton, Seq<LineView>);

impl View for TestSection {
    type V = TestSectionView;

    open spec fn view(&self) -> TestSectionView {
        (self.button, line_views(self.lines@))
    }
}

/// The section on the recognition test.
pub open spec fn test_section_of(test: TestView) -> TestSectionView {
    (
        if running(test) {
            PageButton::StopTest
        } else {
            PageButton::StartTest
        },
        match test {
            TestView::Idle => seq![],
            TestView::Starting => seq![("Starting…"@, LineColor::Muted)],
            TestView::Listening { partial } => if partial.len() == 0 {
                seq![("Listening — speak now"@, LineColor::Accent)]
            } else {
                seq![
                    ("Listening — speak now"@, LineColor::Accent),
                    (partial, LineColor::Muted),
                ]
            },
            TestView::Finished { transcript } => seq![
                ("Transcript"@, LineColor::Muted),
                (transcript, LineColor::Normal),
            ],
            TestView::Failed { message } => seq![(message, LineColor::Error)],
        },
    )
}

impl DontSpeakPageState {
    /// The section on the recognition test, while the daemon is connected.
    pub fn test_section(&self) -> (section: TestSection)
        ensures
            section@ == test_section_of(self@.test),
    {
        let button = if self.test_running() {
            PageButton::StopTest
        } else {
            PageButton::StartTest
        };
        let lines = match &self.test {
            TestRecognition::Idle => Vec::new(),
            TestRecognition::Starting => vec![line("Starting…", LineColor::Muted)],
            TestRecognition::Listening { partial } => {
                let mut lines = vec![line("Listening — speak now", LineColor::Accent)];
                if !partial.as_str().is_empty() {
                    lines.push(line(partial.as_str(), LineColor::Muted));
                }
                lines
            },
            TestRecognition::Finished { transcript } => vec![
                line("Transcript", LineColor::Muted),
                line(transcript.as_str(), LineColor::Normal),
            ],
            TestRecognition::Failed { message } => vec![line(message.as_str(), LineColor::Error)],
        };
        let section = TestSection { button, lines };
        assert(section@.1 =~= test_section_of(self@.test).1);
        section
    }
}

// --- Laws ---

/// Members with plain values are rows of their own.
pub proof fn lemma_plain_rows(members: Seq<MemberView>)
    requires
        plain_members(members),
    ensures
        all_rows(members) == members,
    decreases members.len(),
{
    if members.len() > 0 {
        let before = members.drop_last();
        assert forall|i: int| 0 <= i < before.len() implies plain((#[trigger] before[i]).1) by {
            assert(before[i] == members[i]);
        }
        lemma_plain_rows(before);
        assert(plain(members[members.len() - 1].1));
        assert(before + seq![members.last()] =~= members);
    }
}

/// While the daemon is unreachable, the page tells of no queue: neither while it
/// fetches, nor once a request has not reached the daemon.
pub proof fn lemma_unreachable_daemon_has_no_queue(
    test: TestView,
    reason: Seq<char>,
    model_status: Result<ResponseView, FetchErrorView>,
)
    ensures
        unfetched(test).queue is None,
        fetched(test, Err(FetchErrorView::Unreachable(reason)), model_status).queue is None,
{
}

/// A test runs from its start until a transcript or a failure, and the page
/// offers to stop it exactly as long.
pub proof fn lemma_test_runs_until_its_end(event: TestEventView)
    ensures
        running(TestView::Starting),
        running(test_after(event)) <==> !(event is Transcript || event is Failed),
        test_section_of(test_after(event)).0 == if event is Transcript || event is Failed {
            PageButton::StartTest
        } else {
            PageButton::StopTest
        },
{
}

/// A test ends in a transcript or in an error that says why: whatever terminal
/// line the daemon sends, the test does not go on behind it.
pub proof fn lemma_terminal_line_ends_test(line: Seq<u8>)
    requires
        line_text(line) matches Ok(text) && !blank(text),
        line_response(line) matches Ok(response) && terminal(response),
    ensures
        test_line(line) matches Some(found) && (found is Err || found->Ok_0 is Transcript),
{
}

/// What a reply to the status request tells of the queue: the queue as it is
/// where the reply is a status; the daemon's words where it is an error; that it
/// is unexpected where it is anything else; the reason where the request failed;
/// and nothing where the daemon was not reached.
pub proof fn lemma_queue_answer(reply: Result<ResponseView, FetchErrorView>)
    ensures
        match reply {
            Ok(ResponseView::Status { tts_active, queued, paused, muted }) => queue_answer(reply)
                == Some(
                Ok::<_, Seq<char>>(QueueSnapshot { tts_active, queued, paused, muted }),
            ),
            Ok(ResponseView::Error { message }) => queue_answer(reply) == Some(
                Err::<QueueSnapshot, _>(message),
            ),
            Ok(_) => queue_answer(reply) == Some(
                Err::<QueueSnapshot, _>("Unexpected reply to the status request."@),
            ),
            Err(FetchErrorView::Failed(message)) => queue_answer(reply) == Some(
                Err::<QueueSnapshot, _>(message),
            ),
            Err(FetchErrorView::Unreachable(_)) => queue_answer(reply) is None,
        },
{
}

/// What a reply to the model-status request tells of the models: the status as it
/// is where the reply is one; the daemon's words where it is an error; that it is
/// unexpected where it is anything else; and the reason where there is no reply.
pub proof fn lemma_model_answer(reply: Result<ResponseView, FetchErrorView>)
    ensures
        match reply {
            Ok(ResponseView::ModelStatus { status }) => model_answer(reply) == Ok::<_, Seq<char>>(
                status,
            ),
            Ok(ResponseView::Error { message }) => model_answer(reply) == Err::<JsonView, _>(
                message,
            ),
            Ok(_) => model_answer(reply) == Err::<JsonView, _>(
                "Unexpected reply to the model-status request."@,
            ),
            Err(FetchErrorView::Failed(message)) => model_answer(reply) == Err::<JsonView, _>(
                message,
            ),
            Err(FetchErrorView::Unreachable(message)) => model_answer(reply) == Err::<JsonView, _>(
                message,
            ),
        },
{
}

/// A fetch brings both answers and leaves the test as it is; a fetch that starts
/// anew forgets both and leaves the test as it is too.
pub proof fn lemma_fetch(
    test: TestView,
    status: Result<ResponseView, FetchErrorView>,
    model_status: Result<ResponseView, FetchErrorView>,
)
    ensures
        fetched(test, status, model_status).queue == queue_answer(status),
        fetched(test, status, model_status).model_status == Some(model_answer(model_status)),
        fetched(test, status, model_status).test == test,
        unfetched(test).queue is None,
        unfetched(test).model_status is None,
        unfetched(test).test == test,
{
}

/// What each event makes of a test: it listens with nothing heard, listens with
/// what was heard so far and nothing of what was heard before, or is over with
/// its transcript or its failure. It runs while it starts or listens.
pub proof fn lemma_test_events(test: TestView, text: Seq<char>)
    ensures
        test_after(TestEventView::Listening) == (TestView::Listening { partial: seq![] }),
        test_after(TestEventView::Partial(text)) == (TestView::Listening { partial: text }),
        test_after(TestEventView::Transcript(text)) == (TestView::Finished { transcript: text }),
        test_after(TestEventView::Failed(text)) == (TestView::Failed { message: text }),
        match test {
            TestView::Idle => !running(test),
            TestView::Starting => running(test),
            TestView::Listening { .. } => running(test),
            TestView::Finished { .. } => !running(test),
            TestView::Failed { .. } => !running(test),
        },
{
}

/// On the connection of a test a line of white space and a frontend event mean
/// nothing. That the recogniser listens, and what it heard, are events as they
/// stand; the daemon's error ends the test in the daemon's own words, and every
/// other response as one that was not expected. So does a line that is no UTF-8
/// or no response.
pub proof fn lemma_test_line(line: Seq<u8>)
    ensures
        test_meaning()(line) == test_line(line),
        !valid_utf8(line) ==> test_line(line) == Some(
            Err::<TestEventView, _>(
                TestErrorView::Client(ClientErrorView::Encoding { reason: utf8_error(line) }),
            ),
        ),
        valid_utf8(line) && blank(decode_utf8(line)) ==> test_line(line) is None,
        valid_utf8(line) && !blank(decode_utf8(line)) ==> match response_on(decode_utf8(line)) {
            Ok(ResponseView::Listening) => test_line(line) == Some(
                Ok::<_, TestErrorView>(TestEventView::Listening),
            ),
            Ok(ResponseView::Partial { text }) => test_line(line) == Some(
                Ok::<_, TestErrorView>(TestEventView::Partial(text)),
            ),
            Ok(ResponseView::Transcript { text }) => test_line(line) == Some(
                Ok::<_, TestErrorView>(TestEventView::Transcript(text)),
            ),
            Ok(ResponseView::Error { message }) => test_line(line) == Some(
                Err::<TestEventView, _>(TestErrorView::Reported { message }),
            ),
            Ok(ResponseView::Status { tts_active, queued, paused, muted }) => test_line(line)
                == Some(
                Err::<TestEventView, _>(
                    TestErrorView::Unexpected {
                        reply: OtherReplyView::Status(
                            QueueSnapshot { tts_active, queued, paused, muted },
                        ),
                    },
                ),
            ),
            Ok(ResponseView::Done) => test_line(line) == Some(
                Err::<TestEventView, _>(
                    TestErrorView::Unexpected { reply: OtherReplyView::Done },
                ),
            ),
            Ok(ResponseView::ModelStatus { status }) => test_line(line) == Some(
                Err::<TestEventView, _>(
                    TestErrorView::Unexpected { reply: OtherReplyView::ModelStatus(status) },
                ),
            ),
            Ok(ResponseView::Unknown) => test_line(line) == Some(
                Err::<TestEventView, _>(
                    TestErrorView::Unexpected { reply: OtherReplyView::Unknown },
                ),
            ),
            Ok(ResponseView::FrontendEvent { .. }) => test_line(line) is None,
            Err(error) => test_line(line) == Some(
                Err::<TestEventView, _>(
                    TestErrorView::Client(
                        ClientErrorView::Malformed { line: decode_utf8(line), error },
                    ),
                ),
            ),
        },
{
}

/// The next event of a test is that of the first line that means something, and
/// none while no line does.
pub proof fn lemma_first_test_event(bytes: Seq<u8>, at: int)
    requires
        0 <= at <= lines(bytes).len(),
        forall|k: int| 0 <= k < at ==> test_line(#[trigger] lines(bytes)[k]) is None,
        at < lines(bytes).len() ==> test_line(lines(bytes)[at]) is Some,
    ensures
        at < lines(bytes).len() ==> scanned(bytes, test_meaning()).0 == test_line(
            lines(bytes)[at],
        ) && lines(scanned(bytes, test_meaning()).1) == lines(bytes).skip(at + 1),
        at == lines(bytes).len() ==> scanned(bytes, test_meaning()) == (
            None::<Result<TestEventView, TestErrorView>>,
            left_over(bytes),
        ),
{
    if at < lines(bytes).len() {
        lemma_first_found(bytes, test_meaning(), at);
    } else {
        lemma_nothing_found(bytes, test_meaning());
    }
}

/// The words of a test's failure: an error of the connection and the daemon's own
/// in theirs, a reply that was not expected with all that it says, and the end of
/// the connection.
pub proof fn lemma_test_error_words(error: TestError, reason: Seq<char>, status: JsonView)
    ensures
        match error {
            TestError::Client(own) => test_error_text(error, reason) == error_text(own, reason),
            TestError::Reported { message } => test_error_text(error, reason) == message@,
            TestError::Closed => test_error_text(error, reason)
                == "the daemon closed the connection before a final transcript"@,
            TestError::Unexpected { reply } => {
                let said = "unexpected daemon reply to test recognition: "@;
                match reply@ {
                    OtherReplyView::Done => test_error_text(error, reason) == said + "Done"@,
                    OtherReplyView::Unknown => test_error_text(error, reason) == said
                        + "Unknown"@,
                    OtherReplyView::ModelStatus(status) => test_error_text(error, reason) == said
                        + ("ModelStatus { status: "@ + status_shown(status) + " }"@),
                    OtherReplyView::Status(queue) => {
                        let tts_active = if queue.tts_active {
                            "true"@
                        } else {
                            "false"@
                        };
                        let paused = if queue.paused {
                            "true"@
                        } else {
                            "false"@
                        };
                        let muted = if queue.muted {
                            "true"@
                        } else {
                            "false"@
                        };
                        test_error_text(error, reason) == said + ("Status { tts_active: "@
                            + tts_active + ", queued: "@ + decimal_text(queue.queued as nat)
                            + ", paused: "@ + paused + ", muted: "@ + muted + " }"@)
                    },
                }
            },
        },
        json_shown(compact_text(status)) matches Some(shown) ==> status_shown(status) == shown,
        json_shown(compact_text(status)) is None ==> status_shown(status) == compact_text(status),
{
}

/// What the page says of a connection that is not up, and what it offers: to
/// install a daemon that is absent, and to try again where that can help.
pub proof fn lemma_status_card(status: Option<StatusView>)
    ensures
        match status {
            None => status_card(status) == Some(
                (
                    seq![
                        (
                            "The DontSpeak integration did not initialize in this build of Zed."@,
                            LineColor::Muted,
                        ),
                    ],
                    Seq::<PageButton>::empty(),
                ),
            ),
            Some(StatusView::Absent) => {
                &&& status_card(status) matches Some(card)
                &&& card.0.len() == 2
                &&& card.0[0] == ("DontSpeak is not installed or not running"@, LineColor::Normal)
                &&& card.0[1] == (
                    "DontSpeak provides CapsLock dictation and spoken narration of agent replies. Zed connects to its local daemon automatically once it is running."@,
                    LineColor::Muted,
                )
                &&& card.1 == seq![PageButton::Install, PageButton::CheckAgain]
            },
            Some(StatusView::Disabled) => status_card(status) == Some(
                (
                    seq![
                        (
                            "The DontSpeak integration is turned off. Enable it on the Voice page to connect to the daemon."@,
                            LineColor::Muted,
                        ),
                    ],
                    Seq::<PageButton>::empty(),
                ),
            ),
            Some(StatusView::Connecting) => status_card(status) == Some(
                (
                    seq![("Connecting to the DontSpeak daemon…"@, LineColor::Muted)],
                    Seq::<PageButton>::empty(),
                ),
            ),
            Some(StatusView::Error(error)) => status_card(status) == Some(
                (
                    seq![
                        ("Failed to connect to the DontSpeak daemon"@, LineColor::Normal),
                        (error, LineColor::Error),
                    ],
                    seq![PageButton::CheckAgain],
                ),
            ),
            Some(StatusView::Connected) => status_card(status) is None,
        },
{
}

/// What the page says of the daemon: that it is connected in any case; of the
/// queue, whether it speaks and how many wait where it speaks or some do, and
/// whether it is paused and muted; while there is no answer, that it is awaited;
/// and the error where there is one.
pub proof fn lemma_daemon_section(
    queue: Option<Result<QueueSnapshot, Seq<char>>>,
)
    ensures
        ({
            let up = ("Status"@, "Connected"@, RowIcon::Ready);
            let section = daemon_section_of(queue);
            match queue {
                None => section == (
                    seq![up],
                    Some(("Loading queue state…"@, LineColor::Muted)),
                ),
                Some(Err(error)) => section == (seq![up], Some((error, LineColor::Error))),
                Some(Ok(queue)) => {
                    let waiting = decimal_text(queue.queued as nat);
                    let speech = if queue.tts_active {
                        "Speaking ("@ + waiting + " queued)"@
                    } else if queue.queued != 0 {
                        "Idle ("@ + waiting + " queued)"@
                    } else {
                        "Idle"@
                    };
                    let paused = if queue.paused {
                        "Yes"@
                    } else {
                        "No"@
                    };
                    let muted = if queue.muted {
                        "Yes"@
                    } else {
                        "No"@
                    };
                    &&& section.0 == seq![
                        up,
                        ("Speech"@, speech, RowIcon::Absent),
                        ("Paused"@, paused, RowIcon::Absent),
                        ("Muted"@, muted, RowIcon::Absent),
                    ]
                    &&& section.1 is None
                },
            }
        }),
{
}

/// The rows of a model status: each member of the object is one under its name,
/// but for a member that is an object itself, whose members are, each under both
/// names with a dot between. They stand in the order of the members. A status that
/// is no object is one row.
pub proof fn lemma_rows(
    status: JsonView,
    members: Seq<MemberView>,
    more: Seq<MemberView>,
    name: Seq<char>,
    value: JsonView,
)
    ensures
        status matches JsonView::Object(text) ==> match object_members(text) {
            Some(own) => rows_of(status) == all_rows(own),
            None => rows_of(status).len() == 0,
        },
        !(status is Object) ==> rows_of(status) == seq![("status"@, status)],
        all_rows(Seq::<MemberView>::empty()).len() == 0,
        all_rows(members + more) == all_rows(members) + all_rows(more),
        !(value is Object) ==> all_rows(seq![(name, value)]) == seq![(name, value)],
        value matches JsonView::Object(text) ==> match object_members(text) {
            Some(own) => {
                let rows = all_rows(seq![(name, value)]);
                &&& rows.len() == own.len()
                &&& forall|i: int|
                    0 <= i < own.len() ==> #[trigger] rows[i] == (
                        name + seq!['.'] + own[i].0,
                        own[i].1,
                    )
            },
            None => all_rows(seq![(name, value)]).len() == 0,
        },
    decreases more.len(),
{
    let one = seq![(name, value)];
    assert(one.drop_last() =~= seq![]);
    reveal_with_fuel(all_rows, 2);
    assert(all_rows(one) =~= member_rows((name, value)));
    if more.len() == 0 {
        assert(members + more =~= members);
        assert(all_rows(members) + all_rows(more) =~= all_rows(members));
    } else {
        lemma_rows(status, members, more.drop_last(), name, value);
        assert((members + more).drop_last() =~= members + more.drop_last());
        assert((members + more).last() == more.last());
        assert(all_rows(members + more) =~= all_rows(members) + all_rows(more));
    }
}

/// What the page says of the models: a row for each of the rows of the status,
/// in their order, with a mark where the value says whether something is ready,
/// and that there are none where there is no row; while there is no answer, that
/// it is awaited; and the error where there is one.
pub proof fn lemma_models_section(model: Option<Result<JsonView, Seq<char>>>, i: int)
    ensures
        ({
            let section = models_section_of(model);
            match model {
                None => section.0.len() == 0 && section.1 == Some(
                    ("Loading model status…"@, LineColor::Muted),
                ),
                Some(Err(error)) => section.0.len() == 0 && section.1 == Some(
                    (error, LineColor::Error),
                ),
                Some(Ok(status)) => {
                    let rows = rows_of(status);
                    &&& section.0.len() == rows.len()
                    &&& rows.len() == 0 ==> section.1 == Some(
                        ("The daemon reported no models."@, LineColor::Muted),
                    )
                    &&& rows.len() > 0 ==> section.1 is None
                    &&& 0 <= i < rows.len() ==> section.0[i] == match rows[i].1 {
                        JsonView::Bool(true) => (rows[i].0, "Ready"@, RowIcon::Ready),
                        JsonView::Bool(false) => (rows[i].0, "Not ready"@, RowIcon::NotReady),
                        JsonView::Text(text) => (rows[i].0, text, RowIcon::Absent),
                        JsonView::Unsigned(n) => (
                            rows[i].0,
                            decimal_text(n as nat),
                            RowIcon::Absent,
                        ),
                        JsonView::Signed(n) => (rows[i].0, signed_text(n as int), RowIcon::Absent),
                        JsonView::Float(text) => (rows[i].0, text, RowIcon::Absent),
                        JsonView::Null => (rows[i].0, "—"@, RowIcon::Absent),
                        JsonView::Array(text) => (rows[i].0, text, RowIcon::Absent),
                        JsonView::Object(text) => (rows[i].0, text, RowIcon::Absent),
                    }
                },
            }
        }),
{
}

/// What the page says of a test: nothing before the first; that it starts; that
/// it listens, with what was heard so far where something was; the transcript; or
/// the failure. It offers to stop a test that runs, and else to start one.
pub proof fn lemma_test_section(test: TestView)
    ensures
        match test {
            TestView::Idle => test_section_of(test) == (
                PageButton::StartTest,
                Seq::<LineView>::empty(),
            ),
            TestView::Starting => test_section_of(test) == (
                PageButton::StopTest,
                seq![("Starting…"@, LineColor::Muted)],
            ),
            TestView::Listening { partial } => {
                &&& test_section_of(test).0 == PageButton::StopTest
                &&& partial.len() == 0 ==> test_section_of(test).1 == seq![
                    ("Listening — speak now"@, LineColor::Accent),
                ]
                &&& partial.len() > 0 ==> test_section_of(test).1 == seq![
                    ("Listening — speak now"@, LineColor::Accent),
                    (partial, LineColor::Muted),
                ]
            },
            TestView::Finished { transcript } => test_section_of(test) == (
                PageButton::StartTest,
                seq![("Transcript"@, LineColor::Muted), (transcript, LineColor::Normal)],
            ),
            TestView::Failed { message } => test_section_of(test) == (
                PageButton::StartTest,
                seq![(message, LineColor::Error)],
            ),
        },
{
}

/// A reply that was not expected is told as the debugger shows it, field by field;
/// the status of the models stands in it as it is shown.
pub proof fn lemma_reply_words(queue: QueueSnapshot, status: JsonView, shown: Seq<char>)
    ensures
        reply_text(OtherReplyView::Done, shown) == "Done"@,
        reply_text(OtherReplyView::Unknown, shown) == "Unknown"@,
        reply_text(OtherReplyView::ModelStatus(status), shown) == "ModelStatus { status: "@ + shown
            + " }"@,
        ({
            let tts_active = if queue.tts_active {
                "true"@
            } else {
                "false"@
            };
            let paused = if queue.paused {
                "true"@
            } else {
                "false"@
            };
            let muted = if queue.muted {
                "true"@
            } else {
                "false"@
            };
            reply_text(OtherReplyView::Status(queue), shown) == "Status { tts_active: "@
                + tts_active + ", queued: "@ + decimal_text(queue.queued as nat) + ", paused: "@
                + paused + ", muted: "@ + muted + " }"@
        }),
{
}

/// What a test, its events and its failures say is all that they hold.
pub proof fn lemma_nothing_is_lost(test: TestRecognition, event: TestEvent, error: TestError)
    ensures
        match test {
            TestRecognition::Idle => test@ is Idle,
            TestRecognition::Starting => test@ is Starting,
            TestRecognition::Listening { partial } => test@ == (TestView::Listening {
                partial: partial@,
            }),
            TestRecognition::Finished { transcript } => test@ == (TestView::Finished {
                transcript: transcript@,
            }),
            TestRecognition::Failed { message } => test@ == (TestView::Failed {
                message: message@,
            }),
        },
        match event {
            TestEvent::Listening => event@ is Listening,
            TestEvent::Partial(text) => event@ == TestEventView::Partial(text@),
            TestEvent::Transcript(text) => event@ == TestEventView::Transcript(text@),
            TestEvent::Failed(message) => event@ == TestEventView::Failed(message@),
        },
        match error {
            TestError::Client(own) => error@ == TestErrorView::Client(own@),
            TestError::Reported { message } => error@ == (TestErrorView::Reported {
                message: message@,
            }),
            TestError::Unexpected { reply } => error@ == (TestErrorView::Unexpected {
                reply: match reply {
                    OtherReply::Status(queue) => OtherReplyView::Status(queue),
                    OtherReply::Done => OtherReplyView::Done,
                    OtherReply::ModelStatus(status) => OtherReplyView::ModelStatus(status@),
                    OtherReply::Unknown => OtherReplyView::Unknown,
                },
            }),
            TestError::Closed => error@ is Closed,
        },
        test_event_view(None) is None,
        test_event_view(Some(Ok(event))) == Some(Ok::<_, TestErrorView>(event@)),
        test_event_view(Some(Err(error))) == Some(Err::<TestEventView, _>(error@)),
{
}

} // verus!
