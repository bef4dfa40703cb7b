//! The daemon's NDJSON wire protocol, as far as the editor uses it.
//!
//! One JSON [`Request`] per line goes to the daemon; one or more JSON
//! [`Response`] lines come back. A subscribed frontend connection stays open:
//! the daemon streams non-terminal `frontend_event` lines on it, and the
//! client writes `ack_deliver` lines back.
//!
//! A message is an object whose tag member (`cmd` or `ok`) names its variant,
//! in snake case, beside the variant's fields. Members that the variant does
//! not have are passed over; a field that stands twice is refused. A message
//! may also be an array: the tag, then the fields in their order.

use crate::json::{
    escaped, escaped_text, hex_digit, json_items, json_kind, json_views, member_text, member_view,
    member_views, members_text, object_members, object_text, plain_members, plain_text, quoted,
    read_items, read_kind, read_object, write_object, Json, JsonKind, JsonView, Member, MemberView,
};
use crate::text::{decimal_text, is_digit, lemma_decimal_is_digits, same_text};
use vstd::prelude::*;

verus! {

// --- Messages ---

/// A line from the client to the daemon, such as `{"cmd":"status"}`.
#[allow(inconsistent_fields)]
#[derive(Debug, PartialEq, Eq)]
pub enum Request {
    /// Subscribe this connection as a native frontend for `app`. The daemon
    /// takes the connection over and streams [`Response::FrontendEvent`] lines
    /// on it for as long as it lives.
    SubscribeFrontend { app: String },
    /// Acknowledge a `deliver` frontend event by its `seq`. With `ok: false`,
    /// or without an ack in time, the daemon pastes the utterance itself.
    AckDeliver { seq: u64, ok: bool },
    /// Feed an agent message's cumulative text to the daemon's narration.
    /// `key` tells re-sends of the same entry apart; `is_final` ends the turn.
    NarrateBatch { session: String, key: String, text: String, is_final: bool },
    /// Mark this session as the active one: a prompt was submitted to it.
    MarkActive { session: Option<String>, synthetic: bool },
    /// A session closed for good: drop its speech and its voice state.
    SessionEnd { session: Option<String> },
    /// Stop speech in flight. `None` stops all of it.
    StopSpeech { session: Option<String> },
    /// Snapshot of the speech queue, answered by [`Response::Status`].
    Status,
    /// Model presence and running state, answered by [`Response::ModelStatus`].
    ModelStatus,
    /// Start a live test recognition: `listening` and `partial` lines, ending
    /// with a `transcript`.
    TestRecognitionStart,
    /// Stop the active test recognition, on a second connection.
    TestRecognitionStop,
}

/// A line from the daemon to the client, such as `{"ok":"done"}`.
#[derive(Debug, PartialEq, Eq)]
pub enum Response {
    /// Reply to [`Request::Status`] (terminal).
    Status { tts_active: bool, queued: usize, paused: bool, muted: bool },
    /// Success of a request that returns nothing (terminal).
    Done,
    /// Test recognition: the microphone is open.
    Listening,
    /// Test recognition: live partial transcript.
    Partial { text: String },
    /// Test recognition: final transcript (terminal).
    Transcript { text: String },
    /// Model presence and running state (terminal), as the daemon sends it.
    ModelStatus { status: Json },
    /// Error of any request (terminal).
    Error { message: String },
    /// A dictation event streamed to a subscribed frontend.
    FrontendEvent { event: FrontendEvent, seq: u64 },
    /// A tag that this build does not know (terminal, so that a reader of one
    /// reply stops).
    Unknown,
}

/// The dictation event of a [`Response::FrontendEvent`] line.
#[derive(Debug, PartialEq, Eq)]
pub enum FrontendEvent {
    /// A dictation started; the microphone is live.
    RecordingStarted,
    /// Live partial transcript of the dictation in flight.
    Partial { text: String },
    /// Recording ended; the daemon waits for the confirm gesture.
    AwaitingConfirm { text: String },
    /// Final transcript to insert into the focused input, to be answered with
    /// [`Request::AckDeliver`] for the same `seq`. With `submit` the frontend
    /// also presses Enter.
    Deliver { text: String, submit: bool },
    /// The dictation was cancelled.
    Cancelled,
    /// The daemon refused the dictation.
    Refused,
    /// An event tag that this build does not know.
    Unknown,
}

/// What a [`Request`] says.
#[allow(inconsistent_fields)]
pub enum RequestView {
    SubscribeFrontend { app: Seq<char> },
    AckDeliver { seq: u64, ok: bool },
    NarrateBatch { session: Seq<char>, key: Seq<char>, text: Seq<char>, is_final: bool },
    MarkActive { session: Option<Seq<char>>, synthetic: bool },
    SessionEnd { session: Option<Seq<char>> },
    StopSpeech { session: Option<Seq<char>> },
    Status,
    ModelStatus,
    TestRecognitionStart,
    TestRecognitionStop,
}

/// What a [`Response`] says.
pub enum ResponseView {
    Status { tts_active: bool, queued: usize, paused: bool, muted: bool },
    Done,
    Listening,
    Partial { text: Seq<char> },
    Transcript { text: Seq<char> },
    ModelStatus { status: JsonView },
    Error { message: Seq<char> },
    FrontendEvent { event: FrontendEventView, seq: u64 },
    Unknown,
}

/// What a [`FrontendEvent`] says.
pub enum FrontendEventView {
    RecordingStarted,
    Partial { text: Seq<char> },
    AwaitingConfirm { text: Seq<char> },
    Deliver { text: Seq<char>, submit: bool },
    Cancelled,
    Refused,
    Unknown,
}

/// The characters of an optional text.
pub open spec fn option_text(text: Option<String>) -> Option<Seq<char>> {
    match text {
        Some(t) => Some(t@),
        None => None,
    }
}

impl View for Request {
    type V = RequestView;

    open spec fn view(&self) -> RequestView {
        match self {
            Request::SubscribeFrontend { app } => RequestView::SubscribeFrontend { app: app@ },
            Request::AckDeliver { seq, ok } => RequestView::AckDeliver { seq: *seq, ok: *ok },
            Request::NarrateBatch { session, key, text, is_final } => RequestView::NarrateBatch {
                session: session@,
                key: key@,
                text: text@,
                is_final: *is_final,
            },
            Request::MarkActive { session, synthetic } => RequestView::MarkActive {
                session: option_text(*session),
                synthetic: *synthetic,
            },
            Request::SessionEnd { session } => RequestView::SessionEnd {
                session: option_text(*session),
            },
            Request::StopSpeech { session } => RequestView::StopSpeech {
                session: option_text(*session),
            },
            Request::Status => RequestView::Status,
            Request::ModelStatus => RequestView::ModelStatus,
            Request::TestRecognitionStart => RequestView::TestRecognitionStart,
            Request::TestRecognitionStop => RequestView::TestRecognitionStop,
        }
    }
}

impl View for FrontendEvent {
    type V = FrontendEventView;

    open spec fn view(&self) -> FrontendEventView {
        match self {
            FrontendEvent::RecordingStarted => FrontendEventView::RecordingStarted,
            FrontendEvent::Partial { text } => FrontendEventView::Partial { text: text@ },
            FrontendEvent::AwaitingConfirm { text } => FrontendEventView::AwaitingConfirm {
                text: text@,
            },
            FrontendEvent::Deliver { text, submit } => FrontendEventView::Deliver {
                text: text@,
                submit: *submit,
            },
            FrontendEvent::Cancelled => FrontendEventView::Cancelled,
            FrontendEvent::Refused => FrontendEventView::Refused,
            FrontendEvent::Unknown => FrontendEventView::Unknown,
        }
    }
}

impl View for Response {
    type V = ResponseView;

    open spec fn view(&self) -> ResponseView {
        match self {
            Response::Status { tts_active, queued, paused, muted } => ResponseView::Status {
                tts_active: *tts_active,
                queued: *queued,
                paused: *paused,
                muted: *muted,
            },
            Response::Done => ResponseView::Done,
            Response::Listening => ResponseView::Listening,
            Response::Partial { text } => ResponseView::Partial { text: text@ },
            Response::Transcript { text } => ResponseView::Transcript { text: text@ },
            Response::ModelStatus { status } => ResponseView::ModelStatus { status: status@ },
            Response::Error { message } => ResponseView::Error { message: message@ },
            Response::FrontendEvent { event, seq } => ResponseView::FrontendEvent {
                event: event@,
                seq: *seq,
            },
            Response::Unknown => ResponseView::Unknown,
        }
    }
}

/// Whether a reader of one reply may stop behind this line: all but the lines
/// that stream during a test recognition or on a frontend subscription.
pub open spec fn terminal(response: ResponseView) -> bool {
    !(response is Listening || response is Partial || response is FrontendEvent)
}

impl Response {
    /// Whether a reader of one reply may stop behind this line.
    pub fn is_terminal(&self) -> (yes: bool)
        ensures
            yes == terminal(self@),
    {
        matches!(
            self,
            Response::Status { .. } | Response::Done | Response::Transcript { .. }
                | Response::ModelStatus { .. } | Response::Error { .. } | Response::Unknown
        )
    }
}

impl Clone for FrontendEvent {
    fn clone(&self) -> (event: FrontendEvent)
        ensures
            event@ == self@,
    {
        match self {
            FrontendEvent::RecordingStarted => FrontendEvent::RecordingStarted,
            FrontendEvent::Partial { text } => FrontendEvent::Partial { text: text.clone() },
            FrontendEvent::AwaitingConfirm { text } => FrontendEvent::AwaitingConfirm {
                text: text.clone(),
            },
            FrontendEvent::Deliver { text, submit } => FrontendEvent::Deliver {
                text: text.clone(),
                submit: *submit,
            },
            FrontendEvent::Cancelled => FrontendEvent::Cancelled,
            FrontendEvent::Refused => FrontendEvent::Refused,
            FrontendEvent::Unknown => FrontendEvent::Unknown,
        }
    }
}

/// A copy of an optional text.
pub fn copy_option(text: &Option<String>) -> (copy: Option<String>)
    ensures
        option_text(copy) == option_text(*text),
{
    match text {
        Some(text) => Some(text.clone()),
        None => None,
    }
}

impl Clone for Request {
    fn clone(&self) -> (request: Request)
        ensures
            request@ == self@,
    {
        match self {
            Request::SubscribeFrontend { app } => Request::SubscribeFrontend { app: app.clone() },
            Request::AckDeliver { seq, ok } => Request::AckDeliver { seq: *seq, ok: *ok },
            Request::NarrateBatch { session, key, text, is_final } => Request::NarrateBatch {
                session: session.clone(),
                key: key.clone(),
                text: text.clone(),
                is_final: *is_final,
            },
            Request::MarkActive { session, synthetic } => Request::MarkActive {
                session: copy_option(session),
                synthetic: *synthetic,
            },
            Request::SessionEnd { session } => Request::SessionEnd {
                session: copy_option(session),
            },
            Request::StopSpeech { session } => Request::StopSpeech {
                session: copy_option(session),
            },
            Request::Status => Request::Status,
            Request::ModelStatus => Request::ModelStatus,
            Request::TestRecognitionStart => Request::TestRecognitionStart,
            Request::TestRecognitionStop => Request::TestRecognitionStop,
        }
    }
}

impl Clone for Response {
    fn clone(&self) -> (response: Response)
        ensures
            response@ == self@,
    {
        match self {
            Response::Status { tts_active, queued, paused, muted } => Response::Status {
                tts_active: *tts_active,
                queued: *queued,
                paused: *paused,
                muted: *muted,
            },
            Response::Done => Response::Done,
            Response::Listening => Response::Listening,
            Response::Partial { text } => Response::Partial { text: text.clone() },
            Response::Transcript { text } => Response::Transcript { text: text.clone() },
            Response::ModelStatus { status } => Response::ModelStatus { status: status.clone() },
            Response::Error { message } => Response::Error { message: message.clone() },
            Response::FrontendEvent { event, seq } => Response::FrontendEvent {
                event: event.clone(),
                seq: *seq,
            },
            Response::Unknown => Response::Unknown,
        }
    }
}

// --- Fields ---

/// What stands at a field's place.
pub enum FieldView {
    Missing,
    One(JsonView),
    Repeated,
}

/// A message behind its tag.
pub enum Body {
    /// The members of an object. The tag may stand among them.
    Members(Vec<Member>),
    /// The values of an array behind the tag.
    Values(Vec<Json>),
}

/// What a [`Body`] holds.
pub enum BodyView {
    Members(Seq<MemberView>),
    Values(Seq<JsonView>),
}

impl View for Body {
    type V = BodyView;

    open spec fn view(&self) -> BodyView {
        match self {
            Body::Members(members) => BodyView::Members(member_views(members@)),
            Body::Values(values) => BodyView::Values(json_views(values@)),
        }
    }
}

/// The member of an object that has a name.
pub open spec fn named(members: Seq<MemberView>, name: Seq<char>) -> FieldView
    decreases members.len(),
{
    if members.len() == 0 {
        FieldView::Missing
    } else if members.last().0 != name {
        named(members.drop_last(), name)
    } else if named(members.drop_last(), name) is Missing {
        FieldView::One(members.last().1)
    } else {
        FieldView::Repeated
    }
}

/// A field by its name or, in an array, by its place.
pub open spec fn field(body: BodyView, name: Seq<char>, place: int) -> FieldView {
    match body {
        BodyView::Members(members) => named(members, name),
        BodyView::Values(values) => if place < values.len() {
            FieldView::One(values[place])
        } else {
            FieldView::Missing
        },
    }
}

/// Whether a body has no values beyond the fields of its variant.
pub open spec fn fits(body: BodyView, fields: int) -> bool {
    match body {
        BodyView::Members(_) => true,
        BodyView::Values(values) => values.len() <= fields,
    }
}

pub open spec fn as_text(field: FieldView) -> Option<Seq<char>> {
    match field {
        FieldView::One(JsonView::Text(t)) => Some(t),
        _ => None,
    }
}

pub open spec fn as_bool(field: FieldView) -> Option<bool> {
    match field {
        FieldView::One(JsonView::Bool(b)) => Some(b),
        _ => None,
    }
}

pub open spec fn as_unsigned(field: FieldView) -> Option<u64> {
    match field {
        FieldView::One(JsonView::Unsigned(n)) => Some(n),
        _ => None,
    }
}

pub open spec fn as_size(field: FieldView) -> Option<usize> {
    match field {
        FieldView::One(JsonView::Unsigned(n)) => if n <= usize::MAX {
            Some(n as usize)
        } else {
            None
        },
        _ => None,
    }
}

pub open spec fn as_json(field: FieldView) -> Option<JsonView> {
    match field {
        FieldView::One(value) => Some(value),
        _ => None,
    }
}

/// A text that may be left out or null.
pub open spec fn as_optional_text(field: FieldView) -> Option<Option<Seq<char>>> {
    match field {
        FieldView::Missing => Some(None),
        FieldView::One(JsonView::Null) => Some(None),
        FieldView::One(JsonView::Text(t)) => Some(Some(t)),
        _ => None,
    }
}

/// A truth value that is false where it is left out.
pub open spec fn as_flag(field: FieldView) -> Option<bool> {
    match field {
        FieldView::Missing => Some(false),
        FieldView::One(JsonView::Bool(b)) => Some(b),
        _ => None,
    }
}

/// What stands at a field's place.
enum Field<'a> {
    Missing,
    One(&'a Json),
    Repeated,
}

impl<'a> View for Field<'a> {
    type V = FieldView;

    closed spec fn view(&self) -> FieldView {
        match self {
            Field::Missing => FieldView::Missing,
            Field::One(value) => FieldView::One(value@),
            Field::Repeated => FieldView::Repeated,
        }
    }
}

impl<'a> Field<'a> {
    fn text(&self) -> (text: Option<String>)
        ensures
            option_text(text) == as_text(self@),
    {
        match self {
            Field::One(Json::Text(t)) => Some(t.clone()),
            _ => None,
        }
    }

    fn bool(&self) -> (value: Option<bool>)
        ensures
            value == as_bool(self@),
    {
        match self {
            Field::One(Json::Bool(b)) => Some(*b),
            _ => None,
        }
    }

    fn unsigned(&self) -> (value: Option<u64>)
        ensures
            value == as_unsigned(self@),
    {
        match self {
            Field::One(Json::Unsigned(n)) => Some(*n),
            _ => None,
        }
    }

    fn size(&self) -> (value: Option<usize>)
        ensures
            value == as_size(self@),
    {
        match self {
            Field::One(Json::Unsigned(n)) => if *n <= usize::MAX as u64 {
                Some(*n as usize)
            } else {
                None
            },
            _ => None,
        }
    }

    fn json(&self) -> (value: Option<Json>)
        ensures
            match value {
                Some(json) => as_json(self@) == Some(json@),
                None => as_json(self@) is None,
            },
    {
        match self {
            Field::One(value) => Some((*value).clone()),
            _ => None,
        }
    }

    fn optional_text(&self) -> (text: Option<Option<String>>)
        ensures
            match text {
                Some(given) => as_optional_text(self@) == Some(option_text(given)),
                None => as_optional_text(self@) is None,
            },
    {
        match self {
            Field::Missing => Some(None),
            Field::One(Json::Null) => Some(None),
            Field::One(Json::Text(t)) => Some(Some(t.clone())),
            _ => None,
        }
    }

    fn flag(&self) -> (value: Option<bool>)
        ensures
            value == as_flag(self@),
    {
        match self {
            Field::Missing => Some(false),
            Field::One(Json::Bool(b)) => Some(*b),
            _ => None,
        }
    }
}

/// The member that has a name.
fn find_named<'a>(members: &'a Vec<Member>, name: &str) -> (found: Field<'a>)
    ensures
        found@ == named(member_views(members@), name@),
{
    let ghost views = member_views(members@);
    let mut found: Field<'a> = Field::Missing;
    let mut i: usize = 0;
    while i < members.len()
        invariant
            i <= members.len(),
            views == member_views(members@),
            found@ == named(views.take(i as int), name@),
        decreases members.len() - i,
    {
        proof {
            let done = views.take(i + 1);
            assert(done.drop_last() =~= views.take(i as int));
            assert(done.last() == member_view(members@[i as int]));
        }
        if same_text(members[i].0.as_str(), name) {
            found = match found {
                Field::Missing => Field::One(&members[i].1),
                _ => Field::Repeated,
            };
        }
        i += 1;
    }
    assert(views.take(views.len() as int) =~= views);
    found
}

impl Body {
    fn field<'a>(&'a self, name: &str, place: usize) -> (found: Field<'a>)
        ensures
            found@ == field(self@, name@, place as int),
    {
        match self {
            Body::Members(members) => find_named(members, name),
            Body::Values(values) => if place < values.len() {
                Field::One(&values[place])
            } else {
                Field::Missing
            },
        }
    }

    fn fits(&self, fields: usize) -> (yes: bool)
        ensures
            yes == fits(self@, fields as int),
    {
        match self {
            Body::Members(_) => true,
            Body::Values(values) => values.len() <= fields,
        }
    }
}

// --- Messages of tagged bodies ---

/// The variants of [`FrontendEvent`].
#[derive(Clone, Copy, Debug, PartialEq, Eq, Structural)]
pub enum EventTag {
    RecordingStarted,
    Partial,
    AwaitingConfirm,
    Deliver,
    Cancelled,
    Refused,
    Unknown,
}

/// The event that a name stands for.
pub open spec fn event_by_name(name: Seq<char>) -> EventTag {
    if name == "recording_started"@ {
        EventTag::RecordingStarted
    } else if name == "partial"@ {
        EventTag::Partial
    } else if name == "awaiting_confirm"@ {
        EventTag::AwaitingConfirm
    } else if name == "deliver"@ {
        EventTag::Deliver
    } else if name == "cancelled"@ {
        EventTag::Cancelled
    } else if name == "refused"@ {
        EventTag::Refused
    } else {
        EventTag::Unknown
    }
}

/// The event that a number stands for.
pub open spec fn event_by_number(number: u64) -> EventTag {
    if number == 0 {
        EventTag::RecordingStarted
    } else if number == 1 {
        EventTag::Partial
    } else if number == 2 {
        EventTag::AwaitingConfirm
    } else if number == 3 {
        EventTag::Deliver
    } else if number == 4 {
        EventTag::Cancelled
    } else if number == 5 {
        EventTag::Refused
    } else {
        EventTag::Unknown
    }
}

/// The event that a tag names: by its name or by its number.
pub open spec fn event_tag(tag: FieldView) -> Option<EventTag> {
    match tag {
        FieldView::One(JsonView::Text(name)) => Some(event_by_name(name)),
        FieldView::One(JsonView::Unsigned(number)) => Some(event_by_number(number)),
        _ => None,
    }
}

/// The dictation event among an object's members.
pub open spec fn event_of(members: Seq<MemberView>) -> Option<FrontendEventView> {
    let text = as_text(named(members, "text"@));
    let submit = as_bool(named(members, "submit"@));
    match event_tag(named(members, "event"@)) {
        None => None,
        Some(EventTag::RecordingStarted) => Some(FrontendEventView::RecordingStarted),
        Some(EventTag::Partial) => match text {
            Some(text) => Some(FrontendEventView::Partial { text }),
            None => None,
        },
        Some(EventTag::AwaitingConfirm) => match text {
            Some(text) => Some(FrontendEventView::AwaitingConfirm { text }),
            None => None,
        },
        Some(EventTag::Deliver) => match (text, submit) {
            (Some(text), Some(submit)) => Some(FrontendEventView::Deliver { text, submit }),
            _ => None,
        },
        Some(EventTag::Cancelled) => Some(FrontendEventView::Cancelled),
        Some(EventTag::Refused) => Some(FrontendEventView::Refused),
        Some(EventTag::Unknown) => Some(FrontendEventView::Unknown),
    }
}

/// A body that a variant without fields may have.
pub open spec fn unit(body: BodyView, response: ResponseView) -> Option<ResponseView> {
    if fits(body, 0) {
        Some(response)
    } else {
        None
    }
}

/// The response of a tag and a body.
pub open spec fn response_of(tag: Seq<char>, body: BodyView) -> Option<ResponseView> {
    if tag == "status"@ {
        match (
            as_bool(field(body, "tts_active"@, 0)),
            as_size(field(body, "queued"@, 1)),
            as_bool(field(body, "paused"@, 2)),
            as_bool(field(body, "muted"@, 3)),
        ) {
            (Some(tts_active), Some(queued), Some(paused), Some(muted)) if fits(body, 4) => Some(
                ResponseView::Status { tts_active, queued, paused, muted },
            ),
            _ => None,
        }
    } else if tag == "done"@ {
        unit(body, ResponseView::Done)
    } else if tag == "listening"@ {
        unit(body, ResponseView::Listening)
    } else if tag == "partial"@ {
        match as_text(field(body, "text"@, 0)) {
            Some(text) if fits(body, 1) => Some(ResponseView::Partial { text }),
            _ => None,
        }
    } else if tag == "transcript"@ {
        match as_text(field(body, "text"@, 0)) {
            Some(text) if fits(body, 1) => Some(ResponseView::Transcript { text }),
            _ => None,
        }
    } else if tag == "model_status"@ {
        match as_json(field(body, "status"@, 0)) {
            Some(status) if fits(body, 1) => Some(ResponseView::ModelStatus { status }),
            _ => None,
        }
    } else if tag == "error"@ {
        match as_text(field(body, "message"@, 0)) {
            Some(message) if fits(body, 1) => Some(ResponseView::Error { message }),
            _ => None,
        }
    } else if tag == "frontend_event"@ {
        match body {
            BodyView::Members(members) => match (
                event_of(members),
                as_unsigned(named(members, "seq"@)),
            ) {
                (Some(event), Some(seq)) => Some(ResponseView::FrontendEvent { event, seq }),
                _ => None,
            },
            BodyView::Values(_) => None,
        }
    } else {
        unit(body, ResponseView::Unknown)
    }
}

/// The request of a tag and a body.
pub open spec fn request_of(tag: Seq<char>, body: BodyView) -> Option<RequestView> {
    if tag == "subscribe_frontend"@ {
        match as_text(field(body, "app"@, 0)) {
            Some(app) if fits(body, 1) => Some(RequestView::SubscribeFrontend { app }),
            _ => None,
        }
    } else if tag == "ack_deliver"@ {
        match (as_unsigned(field(body, "seq"@, 0)), as_bool(field(body, "ok"@, 1))) {
            (Some(seq), Some(ok)) if fits(body, 2) => Some(RequestView::AckDeliver { seq, ok }),
            _ => None,
        }
    } else if tag == "narrate_batch"@ {
        match (
            as_text(field(body, "session"@, 0)),
            as_text(field(body, "key"@, 1)),
            as_text(field(body, "text"@, 2)),
            as_bool(field(body, "is_final"@, 3)),
        ) {
            (Some(session), Some(key), Some(text), Some(is_final)) if fits(body, 4) => Some(
                RequestView::NarrateBatch { session, key, text, is_final },
            ),
            _ => None,
        }
    } else if tag == "mark_active"@ {
        match (
            as_optional_text(field(body, "session"@, 0)),
            as_flag(field(body, "synthetic"@, 1)),
        ) {
            (Some(session), Some(synthetic)) if fits(body, 2) => Some(
                RequestView::MarkActive { session, synthetic },
            ),
            _ => None,
        }
    } else if tag == "session_end"@ {
        match as_optional_text(field(body, "session"@, 0)) {
            Some(session) if fits(body, 1) => Some(RequestView::SessionEnd { session }),
            _ => None,
        }
    } else if tag == "stop_speech"@ {
        match as_optional_text(field(body, "session"@, 0)) {
            Some(session) if fits(body, 1) => Some(RequestView::StopSpeech { session }),
            _ => None,
        }
    } else if !fits(body, 0) {
        None
    } else if tag == "status"@ {
        Some(RequestView::Status)
    } else if tag == "model_status"@ {
        Some(RequestView::ModelStatus)
    } else if tag == "test_recognition_start"@ {
        Some(RequestView::TestRecognitionStart)
    } else if tag == "test_recognition_stop"@ {
        Some(RequestView::TestRecognitionStop)
    } else {
        None
    }
}

/// What a read event says.
pub open spec fn event_view(event: Option<FrontendEvent>) -> Option<FrontendEventView> {
    match event {
        Some(event) => Some(event@),
        None => None,
    }
}

/// What a read response says.
pub open spec fn response_view(response: Option<Response>) -> Option<ResponseView> {
    match response {
        Some(response) => Some(response@),
        None => None,
    }
}

/// What a read request says.
pub open spec fn request_view(request: Option<Request>) -> Option<RequestView> {
    match request {
        Some(request) => Some(request@),
        None => None,
    }
}

fn name_event(name: &str) -> (tag: EventTag)
    ensures
        tag == event_by_name(name@),
{
    if same_text(name, "recording_started") {
        EventTag::RecordingStarted
    } else if same_text(name, "partial") {
        EventTag::Partial
    } else if same_text(name, "awaiting_confirm") {
        EventTag::AwaitingConfirm
    } else if same_text(name, "deliver") {
        EventTag::Deliver
    } else if same_text(name, "cancelled") {
        EventTag::Cancelled
    } else if same_text(name, "refused") {
        EventTag::Refused
    } else {
        EventTag::Unknown
    }
}

fn number_event(number: u64) -> (tag: EventTag)
    ensures
        tag == event_by_number(number),
{
    if number == 0 {
        EventTag::RecordingStarted
    } else if number == 1 {
        EventTag::Partial
    } else if number == 2 {
        EventTag::AwaitingConfirm
    } else if number == 3 {
        EventTag::Deliver
    } else if number == 4 {
        EventTag::Cancelled
    } else if number == 5 {
        EventTag::Refused
    } else {
        EventTag::Unknown
    }
}

impl FrontendEvent {
    /// The dictation event among an object's members. `None` where its tag or
    /// one of its fields is missing, repeated or of the wrong type.
    pub fn from_members(members: &Vec<Member>) -> (event: Option<FrontendEvent>)
        ensures
            event_view(event) == event_of(member_views(members@)),
    {
        let tag = match find_named(members, "event") {
            Field::One(Json::Text(name)) => name_event(name.as_str()),
            Field::One(Json::Unsigned(number)) => number_event(*number),
            _ => {
                return None;
            },
        };
        match tag {
            EventTag::RecordingStarted => Some(FrontendEvent::RecordingStarted),
            EventTag::Partial => match find_named(members, "text").text() {
                Some(text) => Some(FrontendEvent::Partial { text }),
                None => None,
            },
            EventTag::AwaitingConfirm => match find_named(members, "text").text() {
                Some(text) => Some(FrontendEvent::AwaitingConfirm { text }),
                None => None,
            },
            EventTag::Deliver => match (
                find_named(members, "text").text(),
                find_named(members, "submit").bool(),
            ) {
                (Some(text), Some(submit)) => Some(FrontendEvent::Deliver { text, submit }),
                _ => None,
            },
            EventTag::Cancelled => Some(FrontendEvent::Cancelled),
            EventTag::Refused => Some(FrontendEvent::Refused),
            EventTag::Unknown => Some(FrontendEvent::Unknown),
        }
    }
}

impl Response {
    /// The response of a tag and a body. `None` where a field of the variant
    /// is missing, repeated or of the wrong type.
    pub fn from_tagged(tag: &str, body: &Body) -> (response: Option<Response>)
        ensures
            response_view(response) == response_of(tag@, body@),
    {
        if same_text(tag, "status") {
            match (
                body.field("tts_active", 0).bool(),
                body.field("queued", 1).size(),
                body.field("paused", 2).bool(),
                body.field("muted", 3).bool(),
            ) {
                (Some(tts_active), Some(queued), Some(paused), Some(muted)) => if body.fits(4) {
                    Some(Response::Status { tts_active, queued, paused, muted })
                } else {
                    None
                },
                _ => None,
            }
        } else if same_text(tag, "done") {
            if body.fits(0) {
                Some(Response::Done)
            } else {
                None
            }
        } else if same_text(tag, "listening") {
            if body.fits(0) {
                Some(Response::Listening)
            } else {
                None
            }
        } else if same_text(tag, "partial") {
            match body.field("text", 0).text() {
                Some(text) => if body.fits(1) {
                    Some(Response::Partial { text })
                } else {
                    None
                },
                None => None,
            }
        } else if same_text(tag, "transcript") {
            match body.field("text", 0).text() {
                Some(text) => if body.fits(1) {
                    Some(Response::Transcript { text })
                } else {
                    None
                },
                None => None,
            }
        } else if same_text(tag, "model_status") {
            match body.field("status", 0).json() {
                Some(status) => if body.fits(1) {
                    Some(Response::ModelStatus { status })
                } else {
                    None
                },
                None => None,
            }
        } else if same_text(tag, "error") {
            match body.field("message", 0).text() {
                Some(message) => if body.fits(1) {
                    Some(Response::Error { message })
                } else {
                    None
                },
                None => None,
            }
        } else if same_text(tag, "frontend_event") {
            match body {
                Body::Members(members) => match (
                    FrontendEvent::from_members(members),
                    find_named(members, "seq").unsigned(),
                ) {
                    (Some(event), Some(seq)) => Some(Response::FrontendEvent { event, seq }),
                    _ => None,
                },
                Body::Values(_) => None,
            }
        } else if body.fits(0) {
            Some(Response::Unknown)
        } else {
            None
        }
    }
}

impl Request {
    /// The request of a tag and a body. `None` where the tag is not known, or
    /// a field of the variant is missing, repeated or of the wrong type.
    pub fn from_tagged(tag: &str, body: &Body) -> (request: Option<Request>)
        ensures
            request_view(request) == request_of(tag@, body@),
    {
        if same_text(tag, "subscribe_frontend") {
            match body.field("app", 0).text() {
                Some(app) => if body.fits(1) {
                    Some(Request::SubscribeFrontend { app })
                } else {
                    None
                },
                None => None,
            }
        } else if same_text(tag, "ack_deliver") {
            match (body.field("seq", 0).unsigned(), body.field("ok", 1).bool()) {
                (Some(seq), Some(ok)) => if body.fits(2) {
                    Some(Request::AckDeliver { seq, ok })
                } else {
                    None
                },
                _ => None,
            }
        } else if same_text(tag, "narrate_batch") {
            match (
                body.field("session", 0).text(),
                body.field("key", 1).text(),
                body.field("text", 2).text(),
                body.field("is_final", 3).bool(),
            ) {
                (Some(session), Some(key), Some(text), Some(is_final)) => if body.fits(4) {
                    Some(Request::NarrateBatch { session, key, text, is_final })
                } else {
                    None
                },
                _ => None,
            }
        } else if same_text(tag, "mark_active") {
            match (body.field("session", 0).optional_text(), body.field("synthetic", 1).flag()) {
                (Some(session), Some(synthetic)) => if body.fits(2) {
                    Some(Request::MarkActive { session, synthetic })
                } else {
                    None
                },
                _ => None,
            }
        } else if same_text(tag, "session_end") {
            match body.field("session", 0).optional_text() {
                Some(session) => if body.fits(1) {
                    Some(Request::SessionEnd { session })
                } else {
                    None
                },
                None => None,
            }
        } else if same_text(tag, "stop_speech") {
            match body.field("session", 0).optional_text() {
                Some(session) => if body.fits(1) {
                    Some(Request::StopSpeech { session })
                } else {
                    None
                },
                None => None,
            }
        } else if !body.fits(0) {
            None
        } else if same_text(tag, "status") {
            Some(Request::Status)
        } else if same_text(tag, "model_status") {
            Some(Request::ModelStatus)
        } else if same_text(tag, "test_recognition_start") {
            Some(Request::TestRecognitionStart)
        } else if same_text(tag, "test_recognition_stop") {
            Some(Request::TestRecognitionStop)
        } else {
            None
        }
    }
}

// --- Lines ---

/// Why a line is no message.
#[derive(Clone, Copy, Debug, PartialEq, Eq, Structural)]
pub enum DecodeError {
    /// The line is no JSON.
    Syntax,
    /// The line is JSON, and no message of the protocol.
    Shape,
}

/// An object's tag, beside its members.
pub open spec fn tagged_members(
    members: Seq<MemberView>,
    tag: Seq<char>,
) -> Result<(Seq<char>, BodyView), DecodeError> {
    match as_text(named(members, tag)) {
        Some(name) => Ok((name, BodyView::Members(members))),
        None => Err(DecodeError::Shape),
    }
}

/// An array's tag, and the values behind it.
pub open spec fn tagged_items(
    items: Seq<JsonView>,
) -> Result<(Seq<char>, BodyView), DecodeError> {
    if items.len() > 0 && items[0] is Text {
        Ok((items[0]->Text_0, BodyView::Values(items.skip(1))))
    } else {
        Err(DecodeError::Shape)
    }
}

/// The tag and the body of a line.
pub open spec fn tagged(
    text: Seq<char>,
    tag: Seq<char>,
) -> Result<(Seq<char>, BodyView), DecodeError> {
    match json_kind(text) {
        None => Err(DecodeError::Syntax),
        Some(JsonKind::Object) => match object_members(text) {
            Some(members) => tagged_members(members, tag),
            None => Err(DecodeError::Shape),
        },
        Some(JsonKind::Array) => match json_items(text) {
            Some(items) => tagged_items(items),
            None => Err(DecodeError::Shape),
        },
        Some(JsonKind::Scalar) => Err(DecodeError::Shape),
    }
}

/// The response that a tagged body makes.
pub open spec fn response_made(
    made: Result<(Seq<char>, BodyView), DecodeError>,
) -> Result<ResponseView, DecodeError> {
    match made {
        Ok((tag, body)) => match response_of(tag, body) {
            Some(response) => Ok(response),
            None => Err(DecodeError::Shape),
        },
        Err(error) => Err(error),
    }
}

/// The request that a tagged body makes.
pub open spec fn request_made(
    made: Result<(Seq<char>, BodyView), DecodeError>,
) -> Result<RequestView, DecodeError> {
    match made {
        Ok((tag, body)) => match request_of(tag, body) {
            Some(request) => Ok(request),
            None => Err(DecodeError::Shape),
        },
        Err(error) => Err(error),
    }
}

/// The response that a line is.
pub open spec fn response_on(line: Seq<char>) -> Result<ResponseView, DecodeError> {
    response_made(tagged(line, "ok"@))
}

/// The request that a line is.
pub open spec fn request_on(line: Seq<char>) -> Result<RequestView, DecodeError> {
    request_made(tagged(line, "cmd"@))
}

/// What a read tag and body say.
pub open spec fn tagged_view(
    made: Result<(String, Body), DecodeError>,
) -> Result<(Seq<char>, BodyView), DecodeError> {
    match made {
        Ok((tag, body)) => Ok((tag@, body@)),
        Err(error) => Err(error),
    }
}

/// What a decoded response says.
pub open spec fn response_result(
    response: Result<Response, DecodeError>,
) -> Result<ResponseView, DecodeError> {
    match response {
        Ok(response) => Ok(response@),
        Err(error) => Err(error),
    }
}

/// What a decoded request says.
pub open spec fn request_result(
    request: Result<Request, DecodeError>,
) -> Result<RequestView, DecodeError> {
    match request {
        Ok(request) => Ok(request@),
        Err(error) => Err(error),
    }
}

/// The tag and the body of an object's members.
pub fn tag_members(members: Vec<Member>, tag: &str) -> (made: Result<(String, Body), DecodeError>)
    ensures
        tagged_view(made) == tagged_members(member_views(members@), tag@),
{
    match find_named(&members, tag).text() {
        Some(name) => Ok((name, Body::Members(members))),
        None => Err(DecodeError::Shape),
    }
}

/// The tag and the body of an array's values.
pub fn tag_items(items: Vec<Json>) -> (made: Result<(String, Body), DecodeError>)
    ensures
        tagged_view(made) == tagged_items(json_views(items@)),
{
    let ghost views = json_views(items@);
    if items.len() == 0 {
        return Err(DecodeError::Shape);
    }
    assert(views[0] == items@[0]@);
    let mut items = items;
    let first = items.remove(0);
    assert(json_views(items@) =~= views.skip(1));
    match first {
        Json::Text(name) => Ok((name, Body::Values(items))),
        _ => Err(DecodeError::Shape),
    }
}

/// Reads the tag and the body of a line.
fn read_tagged(line: &str, tag: &str) -> (made: Result<(String, Body), DecodeError>)
    ensures
        tagged_view(made) == tagged(line@, tag@),
        forall|written: Seq<MemberView>| #[trigger]
            object_text(written) == line@ && plain_members(written) ==> tagged_view(made)
                == tagged_members(written, tag@),
{
    match read_kind(line) {
        None => Err(DecodeError::Syntax),
        Some(JsonKind::Object) => match read_object(line) {
            Some(members) => tag_members(members, tag),
            None => Err(DecodeError::Shape),
        },
        Some(JsonKind::Array) => match read_items(line) {
            Some(items) => tag_items(items),
            None => Err(DecodeError::Shape),
        },
        Some(JsonKind::Scalar) => Err(DecodeError::Shape),
    }
}

/// Decodes a line from the daemon.
///
/// A line that is an object of plain values in compact form is the response
/// that its members make.
pub fn decode_response(line: &str) -> (response: Result<Response, DecodeError>)
    ensures
        response_result(response) == response_on(line@),
        forall|written: Seq<MemberView>| #[trigger]
            object_text(written) == line@ && plain_members(written) ==> response_result(response)
                == response_made(tagged_members(written, "ok"@)),
{
    match read_tagged(line, "ok") {
        Ok((tag, body)) => match Response::from_tagged(tag.as_str(), &body) {
            Some(response) => Ok(response),
            None => Err(DecodeError::Shape),
        },
        Err(error) => Err(error),
    }
}

/// An optional text member.
pub open spec fn optional_member(name: Seq<char>, text: Option<Seq<char>>) -> Seq<MemberView> {
    match text {
        Some(t) => seq![(name, JsonView::Text(t))],
        None => seq![],
    }
}

/// The tag of a request.
pub open spec fn request_tag(request: RequestView) -> Seq<char> {
    match request {
        RequestView::SubscribeFrontend { .. } => "subscribe_frontend"@,
        RequestView::AckDeliver { .. } => "ack_deliver"@,
        RequestView::NarrateBatch { .. } => "narrate_batch"@,
        RequestView::MarkActive { .. } => "mark_active"@,
        RequestView::SessionEnd { .. } => "session_end"@,
        RequestView::StopSpeech { .. } => "stop_speech"@,
        RequestView::Status => "status"@,
        RequestView::ModelStatus => "model_status"@,
        RequestView::TestRecognitionStart => "test_recognition_start"@,
        RequestView::TestRecognitionStop => "test_recognition_stop"@,
    }
}

/// The fields of a request, in their order. An absent session is left out.
pub open spec fn request_fields(request: RequestView) -> Seq<MemberView> {
    match request {
        RequestView::SubscribeFrontend { app } => seq![("app"@, JsonView::Text(app))],
        RequestView::AckDeliver { seq, ok } => seq![
            ("seq"@, JsonView::Unsigned(seq)),
            ("ok"@, JsonView::Bool(ok)),
        ],
        RequestView::NarrateBatch { session, key, text, is_final } => seq![
            ("session"@, JsonView::Text(session)),
            ("key"@, JsonView::Text(key)),
            ("text"@, JsonView::Text(text)),
            ("is_final"@, JsonView::Bool(is_final)),
        ],
        RequestView::MarkActive { session, synthetic } => optional_member("session"@, session)
            + seq![("synthetic"@, JsonView::Bool(synthetic))],
        RequestView::SessionEnd { session } => optional_member("session"@, session),
        RequestView::StopSpeech { session } => optional_member("session"@, session),
        _ => seq![],
    }
}

/// The members of a request: its tag, then its fields.
pub open spec fn request_members(request: RequestView) -> Seq<MemberView> {
    seq![("cmd"@, JsonView::Text(request_tag(request)))] + request_fields(request)
}

/// The line that a request is, without its newline.
pub open spec fn request_text(request: RequestView) -> Seq<char> {
    object_text(request_members(request))
}

/// A member with a text.
fn text_member(name: &str, text: &str) -> (member: Member)
    ensures
        member_view(member) == (name@, JsonView::Text(text@)),
{
    (name.to_string(), Json::Text(text.to_string()))
}

impl Request {
    /// The tag of the request.
    fn tag(&self) -> (tag: &'static str)
        ensures
            tag@ == request_tag(self@),
    {
        match self {
            Request::SubscribeFrontend { .. } => "subscribe_frontend",
            Request::AckDeliver { .. } => "ack_deliver",
            Request::NarrateBatch { .. } => "narrate_batch",
            Request::MarkActive { .. } => "mark_active",
            Request::SessionEnd { .. } => "session_end",
            Request::StopSpeech { .. } => "stop_speech",
            Request::Status => "status",
            Request::ModelStatus => "model_status",
            Request::TestRecognitionStart => "test_recognition_start",
            Request::TestRecognitionStop => "test_recognition_stop",
        }
    }

    /// The members of the request: its tag, then its fields.
    pub fn to_members(&self) -> (members: Vec<Member>)
        ensures
            member_views(members@) == request_members(self@),
    {
        let mut members: Vec<Member> = Vec::new();
        members.push(text_member("cmd", self.tag()));
        match self {
            Request::SubscribeFrontend { app } => {
                members.push(text_member("app", app.as_str()));
            },
            Request::AckDeliver { seq, ok } => {
                members.push(("seq".to_string(), Json::Unsigned(*seq)));
                members.push(("ok".to_string(), Json::Bool(*ok)));
            },
            Request::NarrateBatch { session, key, text, is_final } => {
                members.push(text_member("session", session.as_str()));
                members.push(text_member("key", key.as_str()));
                members.push(text_member("text", text.as_str()));
                members.push(("is_final".to_string(), Json::Bool(*is_final)));
            },
            Request::MarkActive { session, synthetic } => {
                if let Some(session) = session {
                    members.push(text_member("session", session.as_str()));
                }
                members.push(("synthetic".to_string(), Json::Bool(*synthetic)));
            },
            Request::SessionEnd { session } | Request::StopSpeech { session } => {
                if let Some(session) = session {
                    members.push(text_member("session", session.as_str()));
                }
            },
            _ => {},
        }
        assert(member_views(members@) =~= request_members(self@));
        members
    }
}

proof fn lemma_request_members_plain(request: RequestView)
    ensures
        plain_members(request_members(request)),
{
}

/// Encodes a request as a line, without its newline.
pub fn encode_request(request: &Request) -> (line: String)
    ensures
        line@ == request_text(request@),
        !line@.contains('\n'),
{
    proof {
        lemma_request_members_plain(request@);
        lemma_request_is_one_line(request@);
    }
    let members = request.to_members();
    write_object(&members)
}

/// Decodes a line to the daemon. What [`encode_request`] wrote is read back.
pub fn decode_request(line: &str) -> (request: Result<Request, DecodeError>)
    ensures
        request_result(request) == request_on(line@),
        forall|sent: RequestView| #[trigger]
            request_text(sent) == line@ ==> request_result(request) == Ok::<
                RequestView,
                DecodeError,
            >(sent),
{
    proof {
        assert forall|sent: RequestView| #[trigger] request_text(sent) == line@ implies
            object_text(request_members(sent)) == line@ && plain_members(request_members(sent))
            && request_made(tagged_members(request_members(sent), "cmd"@)) == Ok::<
            RequestView,
            DecodeError,
        >(sent) by {
            lemma_request_members_plain(sent);
            lemma_request_round_trip(sent);
        }
    }
    match read_tagged(line, "cmd") {
        Ok((tag, body)) => match Request::from_tagged(tag.as_str(), &body) {
            Some(request) => Ok(request),
            None => Err(DecodeError::Shape),
        },
        Err(error) => Err(error),
    }
}

// --- Laws ---

proof fn lemma_no_newline_escaped(text: Seq<char>)
    ensures
        !escaped_text(text).contains('\n'),
    decreases text.len(),
{
    if text.len() > 0 {
        lemma_no_newline_escaped(text.drop_last());
        let c = text.last();
        assert(!escaped(c).contains('\n')) by {
            assert(hex_digit((c as u32 % 16) as nat) != '\n');
            assert((c as u32) < 32 ==> hex_digit((c as u32 / 16) as nat) != '\n');
        }
        assert(escaped_text(text) == escaped_text(text.drop_last()) + escaped(c));
        if escaped_text(text).contains('\n') {
            let i = choose|i: int| 0 <= i < escaped_text(text).len() && escaped_text(text)[i] == '\n';
            let n = escaped_text(text.drop_last()).len();
            if i < n {
                assert(escaped_text(text.drop_last())[i] == '\n');
            } else {
                assert(escaped(c)[i - n] == '\n');
            }
        }
    }
}

proof fn lemma_no_newline_concat(a: Seq<char>, b: Seq<char>)
    requires
        !a.contains('\n'),
        !b.contains('\n'),
    ensures
        !(a + b).contains('\n'),
{
    if (a + b).contains('\n') {
        let i = choose|i: int| 0 <= i < (a + b).len() && (a + b)[i] == '\n';
        if i < a.len() {
            assert(a[i] == '\n');
        } else {
            assert(b[i - a.len()] == '\n');
        }
    }
}

proof fn lemma_no_newline_quoted(text: Seq<char>)
    ensures
        !quoted(text).contains('\n'),
{
    lemma_no_newline_escaped(text);
    lemma_no_newline_concat(seq!['"'], escaped_text(text));
    lemma_no_newline_concat(seq!['"'] + escaped_text(text), seq!['"']);
}

proof fn lemma_no_newline_plain(value: JsonView)
    ensures
        !plain_text(value).contains('\n'),
{
    match value {
        JsonView::Text(t) => lemma_no_newline_quoted(t),
        JsonView::Unsigned(n) => {
            lemma_decimal_is_digits(n as nat);
            if plain_text(value).contains('\n') {
                let i = choose|i: int|
                    0 <= i < plain_text(value).len() && plain_text(value)[i] == '\n';
                assert(is_digit(decimal_text(n as nat)[i]));
            }
        },
        _ => {},
    }
}

proof fn lemma_no_newline_members(members: Seq<MemberView>)
    ensures
        !members_text(members).contains('\n'),
    decreases members.len(),
{
    if members.len() > 0 {
        let last = members.last();
        lemma_no_newline_quoted(last.0);
        lemma_no_newline_plain(last.1);
        lemma_no_newline_concat(quoted(last.0), seq![':']);
        lemma_no_newline_concat(quoted(last.0) + seq![':'], plain_text(last.1));
        if members.len() > 1 {
            lemma_no_newline_members(members.drop_last());
            lemma_no_newline_concat(members_text(members.drop_last()), seq![',']);
            lemma_no_newline_concat(
                members_text(members.drop_last()) + seq![','],
                member_text(last),
            );
        }
    }
}

/// A request is a single line.
pub proof fn lemma_request_is_one_line(request: RequestView)
    ensures
        !request_text(request).contains('\n'),
{
    let members = request_members(request);
    lemma_no_newline_members(members);
    lemma_no_newline_concat(seq!['{'], members_text(members));
    lemma_no_newline_concat(seq!['{'] + members_text(members), seq!['}']);
}

proof fn lemma_named_missing(members: Seq<MemberView>, name: Seq<char>)
    requires
        forall|i: int| 0 <= i < members.len() ==> (#[trigger] members[i]).0 != name,
    ensures
        named(members, name) is Missing,
    decreases members.len(),
{
    if members.len() > 0 {
        assert(members.last() == members[members.len() - 1]);
        lemma_named_missing(members.drop_last(), name);
    }
}

proof fn lemma_named_unique(members: Seq<MemberView>, at: int)
    requires
        0 <= at < members.len(),
        forall|i: int|
            0 <= i < members.len() && i != at ==> (#[trigger] members[i]).0 != members[at].0,
    ensures
        named(members, members[at].0) == FieldView::One(members[at].1),
    decreases members.len(),
{
    let before = members.drop_last();
    assert(members.last() == members[members.len() - 1]);
    if at == members.len() - 1 {
        lemma_named_missing(before, members[at].0);
    } else {
        assert(members[members.len() - 1].0 != members[at].0);
        assert(before[at] == members[at]);
        lemma_named_unique(before, at);
    }
}

/// The members of a request make that request again.
pub proof fn lemma_request_round_trip(request: RequestView)
    ensures
        request_made(tagged_members(request_members(request), "cmd"@)) == Ok::<
            RequestView,
            DecodeError,
        >(request),
{
    reveal_strlit("cmd");
    reveal_strlit("app");
    reveal_strlit("seq");
    reveal_strlit("ok");
    reveal_strlit("session");
    reveal_strlit("key");
    reveal_strlit("text");
    reveal_strlit("is_final");
    reveal_strlit("synthetic");
    reveal_strlit("subscribe_frontend");
    reveal_strlit("ack_deliver");
    reveal_strlit("narrate_batch");
    reveal_strlit("mark_active");
    reveal_strlit("session_end");
    reveal_strlit("stop_speech");
    reveal_strlit("status");
    reveal_strlit("model_status");
    reveal_strlit("test_recognition_start");
    reveal_strlit("test_recognition_stop");
    assert("cmd"@[0] == 'c' && "app"@[0] == 'a' && "seq"@[0] == 's' && "key"@[0] == 'k');
    assert("session"@.len() == 7 && "synthetic"@.len() == 9 && "text"@.len() == 4);
    assert("is_final"@.len() == 8 && "cmd"@.len() == 3 && "key"@.len() == 3);
    assert("subscribe_frontend"@.len() == 18 && "narrate_batch"@.len() == 13);
    assert("ack_deliver"@.len() == 11 && "mark_active"@.len() == 11);
    assert("session_end"@.len() == 11 && "stop_speech"@.len() == 11);
    assert("status"@.len() == 6 && "model_status"@.len() == 12);
    assert("test_recognition_start"@.len() == 22 && "test_recognition_stop"@.len() == 21);
    assert("ack_deliver"@[1] == 'c' && "mark_active"@[1] == 'a');
    assert("session_end"@[1] == 'e' && "stop_speech"@[1] == 't');
    let members = request_members(request);
    assert(members[0] == ("cmd"@, JsonView::Text(request_tag(request))));
    match request {
        RequestView::SubscribeFrontend { app } => {
            assert(members[1] == ("app"@, JsonView::Text(app)));
            lemma_named_unique(members, 0);
            lemma_named_unique(members, 1);
        },
        RequestView::AckDeliver { seq, ok } => {
            assert(members[1] == ("seq"@, JsonView::Unsigned(seq)));
            assert(members[2] == ("ok"@, JsonView::Bool(ok)));
            lemma_named_unique(members, 0);
            lemma_named_unique(members, 1);
            lemma_named_unique(members, 2);
        },
        RequestView::NarrateBatch { session, key, text, is_final } => {
            assert(members[1] == ("session"@, JsonView::Text(session)));
            assert(members[2] == ("key"@, JsonView::Text(key)));
            assert(members[3] == ("text"@, JsonView::Text(text)));
            assert(members[4] == ("is_final"@, JsonView::Bool(is_final)));
            lemma_named_unique(members, 0);
            lemma_named_unique(members, 1);
            lemma_named_unique(members, 2);
            lemma_named_unique(members, 3);
            lemma_named_unique(members, 4);
        },
        RequestView::MarkActive { session, synthetic } => {
            if session is Some {
                assert(members[1] == ("session"@, JsonView::Text(session->0)));
                assert(members[2] == ("synthetic"@, JsonView::Bool(synthetic)));
                lemma_named_unique(members, 0);
                lemma_named_unique(members, 1);
                lemma_named_unique(members, 2);
            } else {
                assert(members[1] == ("synthetic"@, JsonView::Bool(synthetic)));
                lemma_named_unique(members, 0);
                lemma_named_unique(members, 1);
                lemma_named_missing(members, "session"@);
            }
        },
        RequestView::SessionEnd { session } | RequestView::StopSpeech { session } => {
            if session is Some {
                assert(members[1] == ("session"@, JsonView::Text(session->0)));
                lemma_named_unique(members, 0);
                lemma_named_unique(members, 1);
            } else {
                lemma_named_unique(members, 0);
                lemma_named_missing(members, "session"@);
            }
        },
        _ => {
            lemma_named_unique(members, 0);
        },
    }
}

/// The tags of the responses that this build knows.
pub open spec fn known_response_tag(tag: Seq<char>) -> bool {
    tag == "status"@ || tag == "done"@ || tag == "listening"@ || tag == "partial"@ || tag
        == "transcript"@ || tag == "model_status"@ || tag == "error"@ || tag == "frontend_event"@
}

/// A response with a tag that this build does not know is an unknown response
/// whatever else it holds, and a reader of one reply stops behind it.
pub proof fn lemma_unknown_response(members: Seq<MemberView>, tag: Seq<char>)
    requires
        named(members, "ok"@) == FieldView::One(JsonView::Text(tag)),
        !known_response_tag(tag),
    ensures
        response_made(tagged_members(members, "ok"@)) == Ok::<ResponseView, DecodeError>(
            ResponseView::Unknown,
        ),
        terminal(ResponseView::Unknown),
{
}

/// A frontend event with a tag that this build does not know is an unknown
/// event in a line behind which the subscription goes on.
pub proof fn lemma_unknown_event(members: Seq<MemberView>, name: Seq<char>, seq: u64)
    requires
        named(members, "ok"@) == FieldView::One(JsonView::Text("frontend_event"@)),
        named(members, "event"@) == FieldView::One(JsonView::Text(name)),
        named(members, "seq"@) == FieldView::One(JsonView::Unsigned(seq)),
        event_by_name(name) is Unknown,
    ensures
        response_made(tagged_members(members, "ok"@)) == Ok::<ResponseView, DecodeError>(
            ResponseView::FrontendEvent { event: FrontendEventView::Unknown, seq },
        ),
        !terminal(ResponseView::FrontendEvent { event: FrontendEventView::Unknown, seq }),
{
    reveal_strlit("status");
    reveal_strlit("done");
    reveal_strlit("listening");
    reveal_strlit("partial");
    reveal_strlit("transcript");
    reveal_strlit("model_status");
    reveal_strlit("error");
    reveal_strlit("frontend_event");
    assert("frontend_event"@.len() == 14);
    assert("status"@.len() == 6 && "done"@.len() == 4 && "listening"@.len() == 9);
    assert("partial"@.len() == 7 && "transcript"@.len() == 10 && "error"@.len() == 5);
    assert("model_status"@.len() == 12);
}

/// The names that a response's tag and fields have.
pub open spec fn response_name(name: Seq<char>) -> bool {
    name == "ok"@ || name == "tts_active"@ || name == "queued"@ || name == "paused"@ || name
        == "muted"@ || name == "text"@ || name == "status"@ || name == "message"@ || name
        == "event"@ || name == "submit"@ || name == "seq"@
}

/// A member that no response has changes nothing.
pub proof fn lemma_extra_member(members: Seq<MemberView>, extra: MemberView)
    requires
        !response_name(extra.0),
    ensures
        response_made(tagged_members(members.push(extra), "ok"@)) == response_made(
            tagged_members(members, "ok"@),
        ),
{
    let more = members.push(extra);
    assert(more.drop_last() =~= members);
    assert forall|name: Seq<char>| response_name(name) implies #[trigger] named(more, name)
        == named(members, name) by {
        assert(more.last() == extra);
    }
    if let Some(tag) = as_text(named(members, "ok"@)) {
        let with = BodyView::Members(more);
        let without = BodyView::Members(members);
        assert(named(more, "ok"@) == named(members, "ok"@));
        assert(named(more, "tts_active"@) == named(members, "tts_active"@));
        assert(named(more, "queued"@) == named(members, "queued"@));
        assert(named(more, "paused"@) == named(members, "paused"@));
        assert(named(more, "muted"@) == named(members, "muted"@));
        assert(named(more, "text"@) == named(members, "text"@));
        assert(named(more, "status"@) == named(members, "status"@));
        assert(named(more, "message"@) == named(members, "message"@));
        assert(named(more, "event"@) == named(members, "event"@));
        assert(named(more, "submit"@) == named(members, "submit"@));
        assert(named(more, "seq"@) == named(members, "seq"@));
        assert(response_of(tag, with) == response_of(tag, without));
    } else {
        assert(named(more, "ok"@) == named(members, "ok"@));
    }
}

// --- What responses and requests say ---

/// A reply is over with every response but those that more is to follow: that
/// the recogniser listens, a part of what was said, and a frontend event.
pub proof fn lemma_terminal(response: ResponseView)
    ensures
        match response {
            ResponseView::Status { .. } => terminal(response),
            ResponseView::Done => terminal(response),
            ResponseView::Listening => !terminal(response),
            ResponseView::Partial { .. } => !terminal(response),
            ResponseView::Transcript { .. } => terminal(response),
            ResponseView::ModelStatus { .. } => terminal(response),
            ResponseView::Error { .. } => terminal(response),
            ResponseView::FrontendEvent { .. } => !terminal(response),
            ResponseView::Unknown => terminal(response),
        },
{
}

/// A name has one value where exactly one member has that name, wherever it
/// stands; it is missing where none has, and repeated where two have.
pub proof fn lemma_named(members: Seq<MemberView>, name: Seq<char>, value: JsonView)
    ensures
        named(members, name) is Missing <==> forall|i: int|
            0 <= i < members.len() ==> (#[trigger] members[i]).0 != name,
        named(members, name) == FieldView::One(value) <==> exists|at: int|
            0 <= at < members.len() && #[trigger] members[at] == (name, value) && forall|i: int|
                0 <= i < members.len() && i != at ==> (#[trigger] members[i]).0 != name,
        named(members, name) is Repeated <==> exists|i: int, j: int|
            0 <= i < j < members.len() && (#[trigger] members[i]).0 == name && (
            #[trigger] members[j]).0 == name,
{
    lemma_named_at(members, name);
    if forall|i: int| 0 <= i < members.len() ==> (#[trigger] members[i]).0 != name {
        lemma_named_missing(members, name);
    }
    assert forall|at: int|
        0 <= at < members.len() && #[trigger] members[at] == (name, value) && (forall|i: int|
            0 <= i < members.len() && i != at ==> (#[trigger] members[i]).0
                != name) implies named(members, name) == FieldView::One(value) by {
        lemma_named_unique(members, at);
    }
    if named(members, name) == FieldView::One(value) {
        let at = choose|at: int|
            0 <= at < members.len() && #[trigger] members[at] == (name, value) && (forall|i: int|
                0 <= i < members.len() && i != at ==> (#[trigger] members[i]).0 != name);
        assert(members[at] == (name, value));
    }
    assert forall|i: int, j: int|
        0 <= i < j < members.len() && (#[trigger] members[i]).0 == name && (
        #[trigger] members[j]).0 == name implies named(members, name) is Repeated by {
        match named(members, name) {
            FieldView::Missing => {
                assert(members[i].0 != name);
            },
            FieldView::One(one) => {
                let at = choose|at: int|
                    0 <= at < members.len() && #[trigger] members[at] == (name, one) && (forall|
                        k: int,
                    |
                        0 <= k < members.len() && k != at ==> (#[trigger] members[k]).0 != name);
                assert(i == at || members[i].0 != name);
                assert(j == at || members[j].0 != name);
            },
            FieldView::Repeated => {},
        }
    }
}

proof fn lemma_named_at(members: Seq<MemberView>, name: Seq<char>)
    ensures
        match named(members, name) {
            FieldView::Missing => forall|i: int|
                0 <= i < members.len() ==> (#[trigger] members[i]).0 != name,
            FieldView::One(value) => exists|at: int|
                0 <= at < members.len() && #[trigger] members[at] == (name, value) && forall|i: int|
                    0 <= i < members.len() && i != at ==> (#[trigger] members[i]).0 != name,
            FieldView::Repeated => exists|i: int, j: int|
                0 <= i < j < members.len() && (#[trigger] members[i]).0 == name && (
                #[trigger] members[j]).0 == name,
        },
    decreases members.len(),
{
    if members.len() > 0 {
        let before = members.drop_last();
        let last = members.len() - 1;
        lemma_named_at(before, name);
        assert(members.last() == members[last]);
        match named(before, name) {
            FieldView::Missing => {
                assert forall|i: int| 0 <= i < last implies (#[trigger] members[i]).0 != name by {
                    assert(before[i] == members[i]);
                }
                if members[last].0 == name {
                    assert(members[last] == (name, members[last].1));
                }
            },
            FieldView::One(value) => {
                let at = choose|at: int|
                    0 <= at < before.len() && #[trigger] before[at] == (name, value) && (forall|
                        i: int,
                    |
                        0 <= i < before.len() && i != at ==> (#[trigger] before[i]).0 != name);
                assert(members[at] == (name, value));
                if members[last].0 != name {
                    assert forall|i: int| 0 <= i < members.len() && i != at implies (
                    #[trigger] members[i]).0 != name by {
                        if i < last {
                            assert(before[i] == members[i]);
                        }
                    }
                }
            },
            FieldView::Repeated => {
                let (i, j) = choose|i: int, j: int|
                    0 <= i < j < before.len() && (#[trigger] before[i]).0 == name && (
                    #[trigger] before[j]).0 == name;
                assert(members[i].0 == name && members[j].0 == name);
            },
        }
    }
}

proof fn lemma_response_tags()
    ensures
        "status"@.len() == 6,
        "done"@.len() == 4,
        "listening"@.len() == 9,
        "partial"@.len() == 7,
        "transcript"@.len() == 10,
        "model_status"@.len() == 12,
        "error"@.len() == 5,
        "frontend_event"@.len() == 14,
{
    reveal_strlit("status");
    reveal_strlit("done");
    reveal_strlit("listening");
    reveal_strlit("partial");
    reveal_strlit("transcript");
    reveal_strlit("model_status");
    reveal_strlit("error");
    reveal_strlit("frontend_event");
}

/// Which responses a JSON object is: the member "ok" tells which one, and it is
/// one where each of its fields is there once and has a value of its kind, and
/// only there.
pub proof fn lemma_response_members(
    members: Seq<MemberView>,
    tts_active: bool,
    queued: usize,
    paused: bool,
    muted: bool,
    text: Seq<char>,
    status: JsonView,
)
    ensures
        ({
            let made = response_made(tagged_members(members, "ok"@));
            let ok = named(members, "ok"@);
            let said = named(members, "text"@);
            let full = ResponseView::Status { tts_active, queued, paused, muted };
            &&& made is Err ==> made == Err::<ResponseView, _>(DecodeError::Shape)
            &&& made == Ok::<_, DecodeError>(full) <==> {
                &&& ok == FieldView::One(JsonView::Text("status"@))
                &&& named(members, "tts_active"@) == FieldView::One(JsonView::Bool(tts_active))
                &&& named(members, "queued"@) == FieldView::One(JsonView::Unsigned(queued as u64))
                &&& named(members, "paused"@) == FieldView::One(JsonView::Bool(paused))
                &&& named(members, "muted"@) == FieldView::One(JsonView::Bool(muted))
            }
            &&& made == Ok::<_, DecodeError>(ResponseView::Done) <==> ok == FieldView::One(
                JsonView::Text("done"@),
            )
            &&& made == Ok::<_, DecodeError>(ResponseView::Listening) <==> ok == FieldView::One(
                JsonView::Text("listening"@),
            )
            &&& made == Ok::<_, DecodeError>(ResponseView::Partial { text }) <==> ok
                == FieldView::One(JsonView::Text("partial"@)) && said == FieldView::One(
                JsonView::Text(text),
            )
            &&& made == Ok::<_, DecodeError>(ResponseView::Transcript { text }) <==> ok
                == FieldView::One(JsonView::Text("transcript"@)) && said == FieldView::One(
                JsonView::Text(text),
            )
            &&& made == Ok::<_, DecodeError>(ResponseView::ModelStatus { status }) <==> ok
                == FieldView::One(JsonView::Text("model_status"@)) && named(members, "status"@)
                == FieldView::One(status)
            &&& made == Ok::<_, DecodeError>(ResponseView::Error { message: text }) <==> ok
                == FieldView::One(JsonView::Text("error"@)) && named(members, "message"@)
                == FieldView::One(JsonView::Text(text))
            &&& made == Ok::<_, DecodeError>(ResponseView::Unknown) <==> {
                &&& ok matches FieldView::One(JsonView::Text(tag))
                &&& tag != "status"@ && tag != "done"@ && tag != "listening"@
                &&& tag != "partial"@ && tag != "transcript"@ && tag != "model_status"@
                &&& tag != "error"@ && tag != "frontend_event"@
            }
        }),
{
    lemma_response_tags();
}

proof fn lemma_event_names()
    ensures
        "recording_started"@.len() == 17,
        "partial"@.len() == 7 && "partial"@[0] == 'p',
        "awaiting_confirm"@.len() == 16,
        "deliver"@.len() == 7 && "deliver"@[0] == 'd',
        "cancelled"@.len() == 9,
        "refused"@.len() == 7 && "refused"@[0] == 'r',
{
    reveal_strlit("recording_started");
    reveal_strlit("partial");
    reveal_strlit("awaiting_confirm");
    reveal_strlit("deliver");
    reveal_strlit("cancelled");
    reveal_strlit("refused");
}

/// Which frontend events a JSON object is: "event" tells which one, by its name
/// or its number; the number of the event is in "seq"; and the fields of the
/// event stand beside. An event that is not known is one all the same.
pub proof fn lemma_event_members(
    members: Seq<MemberView>,
    event: FrontendEventView,
    seq: u64,
)
    ensures
        response_made(tagged_members(members, "ok"@)) == Ok::<_, DecodeError>(
            ResponseView::FrontendEvent { event, seq },
        ) <==> {
            let tag = named(members, "event"@);
            &&& named(members, "ok"@) == FieldView::One(JsonView::Text("frontend_event"@))
            &&& named(members, "seq"@) == FieldView::One(JsonView::Unsigned(seq))
            &&& match event {
                FrontendEventView::RecordingStarted => {
                    ||| tag == FieldView::One(JsonView::Text("recording_started"@))
                    ||| tag == FieldView::One(JsonView::Unsigned(0))
                },
                FrontendEventView::Partial { text } => {
                    &&& tag == FieldView::One(JsonView::Text("partial"@)) || tag
                        == FieldView::One(JsonView::Unsigned(1))
                    &&& named(members, "text"@) == FieldView::One(JsonView::Text(text))
                },
                FrontendEventView::AwaitingConfirm { text } => {
                    &&& tag == FieldView::One(JsonView::Text("awaiting_confirm"@)) || tag
                        == FieldView::One(JsonView::Unsigned(2))
                    &&& named(members, "text"@) == FieldView::One(JsonView::Text(text))
                },
                FrontendEventView::Deliver { text, submit } => {
                    &&& tag == FieldView::One(JsonView::Text("deliver"@)) || tag
                        == FieldView::One(JsonView::Unsigned(3))
                    &&& named(members, "text"@) == FieldView::One(JsonView::Text(text))
                    &&& named(members, "submit"@) == FieldView::One(JsonView::Bool(submit))
                },
                FrontendEventView::Cancelled => {
                    ||| tag == FieldView::One(JsonView::Text("cancelled"@))
                    ||| tag == FieldView::One(JsonView::Unsigned(4))
                },
                FrontendEventView::Refused => {
                    ||| tag == FieldView::One(JsonView::Text("refused"@))
                    ||| tag == FieldView::One(JsonView::Unsigned(5))
                },
                FrontendEventView::Unknown => match tag {
                    FieldView::One(JsonView::Text(name)) => {
                        &&& name != "recording_started"@ && name != "partial"@
                        &&& name != "awaiting_confirm"@ && name != "deliver"@
                        &&& name != "cancelled"@ && name != "refused"@
                    },
                    FieldView::One(JsonView::Unsigned(number)) => number > 5,
                    _ => false,
                },
            }
        },
{
    lemma_response_tags();
    lemma_event_names();
}

/// Which responses a JSON array is: the tag, and then the values of the fields in
/// their order and nothing else. No frontend event is an array.
pub proof fn lemma_response_items(
    items: Seq<JsonView>,
    tts_active: bool,
    queued: usize,
    paused: bool,
    muted: bool,
    text: Seq<char>,
    status: JsonView,
    event: FrontendEventView,
    seq: u64,
)
    ensures
        ({
            let made = response_made(tagged_items(items));
            let full = ResponseView::Status { tts_active, queued, paused, muted };
            &&& made is Err ==> made == Err::<ResponseView, _>(DecodeError::Shape)
            &&& made == Ok::<_, DecodeError>(full) <==> items == seq![
                JsonView::Text("status"@),
                JsonView::Bool(tts_active),
                JsonView::Unsigned(queued as u64),
                JsonView::Bool(paused),
                JsonView::Bool(muted),
            ]
            &&& made == Ok::<_, DecodeError>(ResponseView::Done) <==> items == seq![
                JsonView::Text("done"@),
            ]
            &&& made == Ok::<_, DecodeError>(ResponseView::Listening) <==> items == seq![
                JsonView::Text("listening"@),
            ]
            &&& made == Ok::<_, DecodeError>(ResponseView::Partial { text }) <==> items == seq![
                JsonView::Text("partial"@),
                JsonView::Text(text),
            ]
            &&& made == Ok::<_, DecodeError>(ResponseView::Transcript { text }) <==> items == seq![
                JsonView::Text("transcript"@),
                JsonView::Text(text),
            ]
            &&& made == Ok::<_, DecodeError>(ResponseView::ModelStatus { status }) <==> items
                == seq![JsonView::Text("model_status"@), status]
            &&& made == Ok::<_, DecodeError>(ResponseView::Error { message: text }) <==> items
                == seq![JsonView::Text("error"@), JsonView::Text(text)]
            &&& made != Ok::<_, DecodeError>(ResponseView::FrontendEvent { event, seq })
            &&& made == Ok::<_, DecodeError>(ResponseView::Unknown) <==> {
                &&& items.len() == 1
                &&& items[0] matches JsonView::Text(tag)
                &&& tag != "status"@ && tag != "done"@ && tag != "listening"@
                &&& tag != "partial"@ && tag != "transcript"@ && tag != "model_status"@
                &&& tag != "error"@ && tag != "frontend_event"@
            }
        }),
{
    lemma_response_tags();
    let made = response_made(tagged_items(items));
    let rest = items.skip(1);
    if items.len() > 0 {
        assert(forall|i: int| 0 <= i < rest.len() ==> #[trigger] rest[i] == items[i + 1]);
        if made == Ok::<_, DecodeError>(
            ResponseView::Status { tts_active, queued, paused, muted },
        ) {
            assert(rest.len() == 4);
            assert(items =~= seq![
                JsonView::Text("status"@),
                JsonView::Bool(tts_active),
                JsonView::Unsigned(queued as u64),
                JsonView::Bool(paused),
                JsonView::Bool(muted),
            ]);
        }
        if made is Ok && items.len() == 1 {
            assert(items =~= seq![items[0]]);
        }
        if made is Ok && items.len() == 2 {
            assert(items =~= seq![items[0], rest[0]]);
        }
    }
}

/// What a line is: no JSON at all, an object or an array, which are read as such,
/// or another value, which is no response and no request.
pub proof fn lemma_kinds_of_lines(line: Seq<char>)
    ensures
        json_kind(line) is None ==> response_on(line) == Err::<ResponseView, _>(
            DecodeError::Syntax,
        ) && request_on(line) == Err::<RequestView, _>(DecodeError::Syntax),
        json_kind(line) == Some(JsonKind::Scalar) ==> response_on(line) == Err::<ResponseView, _>(
            DecodeError::Shape,
        ) && request_on(line) == Err::<RequestView, _>(DecodeError::Shape),
        json_kind(line) == Some(JsonKind::Object) ==> match object_members(line) {
            Some(members) => {
                &&& response_on(line) == response_made(tagged_members(members, "ok"@))
                &&& request_on(line) == request_made(tagged_members(members, "cmd"@))
            },
            None => {
                &&& response_on(line) == Err::<ResponseView, _>(DecodeError::Shape)
                &&& request_on(line) == Err::<RequestView, _>(DecodeError::Shape)
            },
        },
        json_kind(line) == Some(JsonKind::Array) ==> match json_items(line) {
            Some(items) => {
                &&& response_on(line) == response_made(tagged_items(items))
                &&& request_on(line) == request_made(tagged_items(items))
            },
            None => {
                &&& response_on(line) == Err::<ResponseView, _>(DecodeError::Shape)
                &&& request_on(line) == Err::<RequestView, _>(DecodeError::Shape)
            },
        },
{
}

proof fn lemma_request_tags()
    ensures
        "subscribe_frontend"@.len() == 18,
        "ack_deliver"@.len() == 11 && "ack_deliver"@[1] == 'c',
        "narrate_batch"@.len() == 13,
        "mark_active"@.len() == 11 && "mark_active"@[1] == 'a',
        "session_end"@.len() == 11 && "session_end"@[1] == 'e',
        "stop_speech"@.len() == 11 && "stop_speech"@[1] == 't',
        "status"@.len() == 6,
        "model_status"@.len() == 12,
        "test_recognition_start"@.len() == 22,
        "test_recognition_stop"@.len() == 21,
{
    reveal_strlit("subscribe_frontend");
    reveal_strlit("ack_deliver");
    reveal_strlit("narrate_batch");
    reveal_strlit("mark_active");
    reveal_strlit("session_end");
    reveal_strlit("stop_speech");
    reveal_strlit("status");
    reveal_strlit("model_status");
    reveal_strlit("test_recognition_start");
    reveal_strlit("test_recognition_stop");
}

/// A request as a JSON object: the member "cmd" with its tag, and behind it its
/// fields under their names and in their order. A session that is not given is
/// left out.
pub proof fn lemma_request_members(request: RequestView)
    ensures
        request_text(request) == object_text(request_members(request)),
        ({
            let cmd = "cmd"@;
            let session = "session"@;
            let members = request_members(request);
            match request {
                RequestView::SubscribeFrontend { app } => members == seq![
                    (cmd, JsonView::Text("subscribe_frontend"@)),
                    ("app"@, JsonView::Text(app)),
                ],
                RequestView::AckDeliver { seq, ok } => members == seq![
                    (cmd, JsonView::Text("ack_deliver"@)),
                    ("seq"@, JsonView::Unsigned(seq)),
                    ("ok"@, JsonView::Bool(ok)),
                ],
                RequestView::NarrateBatch { session: of, key, text, is_final } => members == seq![
                    (cmd, JsonView::Text("narrate_batch"@)),
                    (session, JsonView::Text(of)),
                    ("key"@, JsonView::Text(key)),
                    ("text"@, JsonView::Text(text)),
                    ("is_final"@, JsonView::Bool(is_final)),
                ],
                RequestView::MarkActive { session: Some(of), synthetic } => members == seq![
                    (cmd, JsonView::Text("mark_active"@)),
                    (session, JsonView::Text(of)),
                    ("synthetic"@, JsonView::Bool(synthetic)),
                ],
                RequestView::MarkActive { session: None, synthetic } => members == seq![
                    (cmd, JsonView::Text("mark_active"@)),
                    ("synthetic"@, JsonView::Bool(synthetic)),
                ],
                RequestView::SessionEnd { session: Some(of) } => members == seq![
                    (cmd, JsonView::Text("session_end"@)),
                    (session, JsonView::Text(of)),
                ],
                RequestView::SessionEnd { session: None } => members == seq![
                    (cmd, JsonView::Text("session_end"@)),
                ],
                RequestView::StopSpeech { session: Some(of) } => members == seq![
                    (cmd, JsonView::Text("stop_speech"@)),
                    (session, JsonView::Text(of)),
                ],
                RequestView::StopSpeech { session: None } => members == seq![
                    (cmd, JsonView::Text("stop_speech"@)),
                ],
                RequestView::Status => members == seq![(cmd, JsonView::Text("status"@))],
                RequestView::ModelStatus => members == seq![
                    (cmd, JsonView::Text("model_status"@)),
                ],
                RequestView::TestRecognitionStart => members == seq![
                    (cmd, JsonView::Text("test_recognition_start"@)),
                ],
                RequestView::TestRecognitionStop => members == seq![
                    (cmd, JsonView::Text("test_recognition_stop"@)),
                ],
            }
        }),
{
}

/// Which requests a JSON object is: the member "cmd" tells which one, and it is
/// one where each of its fields is there once and has a value of its kind, and
/// only there. A session may be missing or null, and a missing "synthetic" is no.
pub proof fn lemma_request_fields(members: Seq<MemberView>, request: RequestView)
    ensures
        ({
            let made = request_made(tagged_members(members, "cmd"@));
            made is Err ==> made == Err::<RequestView, _>(DecodeError::Shape)
        }),
        request_made(tagged_members(members, "cmd"@)) == Ok::<_, DecodeError>(request) <==> {
            let cmd = named(members, "cmd"@);
            let session = named(members, "session"@);
            match request {
                RequestView::SubscribeFrontend { app } => {
                    &&& cmd == FieldView::One(JsonView::Text("subscribe_frontend"@))
                    &&& named(members, "app"@) == FieldView::One(JsonView::Text(app))
                },
                RequestView::AckDeliver { seq, ok } => {
                    &&& cmd == FieldView::One(JsonView::Text("ack_deliver"@))
                    &&& named(members, "seq"@) == FieldView::One(JsonView::Unsigned(seq))
                    &&& named(members, "ok"@) == FieldView::One(JsonView::Bool(ok))
                },
                RequestView::NarrateBatch { session: of, key, text, is_final } => {
                    &&& cmd == FieldView::One(JsonView::Text("narrate_batch"@))
                    &&& session == FieldView::One(JsonView::Text(of))
                    &&& named(members, "key"@) == FieldView::One(JsonView::Text(key))
                    &&& named(members, "text"@) == FieldView::One(JsonView::Text(text))
                    &&& named(members, "is_final"@) == FieldView::One(JsonView::Bool(is_final))
                },
                RequestView::MarkActive { session: of, synthetic } => {
                    &&& cmd == FieldView::One(JsonView::Text("mark_active"@))
                    &&& of matches Some(text) ==> session == FieldView::One(JsonView::Text(text))
                    &&& of is None ==> session is Missing || session == FieldView::One(
                        JsonView::Null,
                    )
                    &&& {
                        ||| named(members, "synthetic"@) == FieldView::One(
                            JsonView::Bool(synthetic),
                        )
                        ||| named(members, "synthetic"@) is Missing && !synthetic
                    }
                },
                RequestView::SessionEnd { session: of } => {
                    &&& cmd == FieldView::One(JsonView::Text("session_end"@))
                    &&& of matches Some(text) ==> session == FieldView::One(JsonView::Text(text))
                    &&& of is None ==> session is Missing || session == FieldView::One(
                        JsonView::Null,
                    )
                },
                RequestView::StopSpeech { session: of } => {
                    &&& cmd == FieldView::One(JsonView::Text("stop_speech"@))
                    &&& of matches Some(text) ==> session == FieldView::One(JsonView::Text(text))
                    &&& of is None ==> session is Missing || session == FieldView::One(
                        JsonView::Null,
                    )
                },
                RequestView::Status => cmd == FieldView::One(JsonView::Text("status"@)),
                RequestView::ModelStatus => cmd == FieldView::One(JsonView::Text("model_status"@)),
                RequestView::TestRecognitionStart => cmd == FieldView::One(
                    JsonView::Text("test_recognition_start"@),
                ),
                RequestView::TestRecognitionStop => cmd == FieldView::One(
                    JsonView::Text("test_recognition_stop"@),
                ),
            }
        },
{
    lemma_request_tags();
}

/// Which requests a JSON array is: the tag, and then the values of the fields in
/// their order and nothing else. A session may be null, and the optional fields at
/// the end may be left out.
pub proof fn lemma_request_items(items: Seq<JsonView>, request: RequestView)
    ensures
        request_made(tagged_items(items)) == Ok::<_, DecodeError>(request) <==> match request {
            RequestView::SubscribeFrontend { app } => items == seq![
                JsonView::Text("subscribe_frontend"@),
                JsonView::Text(app),
            ],
            RequestView::AckDeliver { seq, ok } => items == seq![
                JsonView::Text("ack_deliver"@),
                JsonView::Unsigned(seq),
                JsonView::Bool(ok),
            ],
            RequestView::NarrateBatch { session, key, text, is_final } => items == seq![
                JsonView::Text("narrate_batch"@),
                JsonView::Text(session),
                JsonView::Text(key),
                JsonView::Text(text),
                JsonView::Bool(is_final),
            ],
            RequestView::MarkActive { session, synthetic } => {
                let tag = JsonView::Text("mark_active"@);
                let of = match session {
                    Some(text) => JsonView::Text(text),
                    None => JsonView::Null,
                };
                ||| items == seq![tag, of, JsonView::Bool(synthetic)]
                ||| items == seq![tag, of] && !synthetic
                ||| items == seq![tag] && session is None && !synthetic
            },
            RequestView::SessionEnd { session } => {
                let tag = JsonView::Text("session_end"@);
                let of = match session {
                    Some(text) => JsonView::Text(text),
                    None => JsonView::Null,
                };
                items == seq![tag, of] || (items == seq![tag] && session is None)
            },
            RequestView::StopSpeech { session } => {
                let tag = JsonView::Text("stop_speech"@);
                let of = match session {
                    Some(text) => JsonView::Text(text),
                    None => JsonView::Null,
                };
                items == seq![tag, of] || (items == seq![tag] && session is None)
            },
            RequestView::Status => items == seq![JsonView::Text("status"@)],
            RequestView::ModelStatus => items == seq![JsonView::Text("model_status"@)],
            RequestView::TestRecognitionStart => items == seq![
                JsonView::Text("test_recognition_start"@),
            ],
            RequestView::TestRecognitionStop => items == seq![
                JsonView::Text("test_recognition_stop"@),
            ],
        },
{
    lemma_request_tags();
    let rest = items.skip(1);
    if items.len() > 0 {
        assert(forall|i: int| 0 <= i < rest.len() ==> #[trigger] rest[i] == items[i + 1]);
        if rest.len() == 0 {
            assert(items =~= seq![items[0]]);
        } else if rest.len() == 1 {
            assert(items =~= seq![items[0], rest[0]]);
        } else if rest.len() == 2 {
            assert(items =~= seq![items[0], rest[0], rest[1]]);
        } else if rest.len() == 4 {
            assert(items =~= seq![items[0], rest[0], rest[1], rest[2], rest[3]]);
        }
    }
}

/// What requests, responses and events say is all that they hold, field by field.
pub proof fn lemma_nothing_is_lost(
    request: Request,
    event: FrontendEvent,
    response: Response,
)
    ensures
        match request {
            Request::SubscribeFrontend { app } => request@ == (RequestView::SubscribeFrontend {
                app: app@,
            }),
            Request::AckDeliver { seq, ok } => request@ == (RequestView::AckDeliver { seq, ok }),
            Request::NarrateBatch { session, key, text, is_final } => request@
                == (RequestView::NarrateBatch {
                session: session@,
                key: key@,
                text: text@,
                is_final,
            }),
            Request::MarkActive { session, synthetic } => request@ is MarkActive
                && request@->synthetic == synthetic && match session {
                Some(session) => request@->MarkActive_session == Some(session@),
                None => request@->MarkActive_session is None,
            },
            Request::SessionEnd { session } => request@ is SessionEnd && match session {
                Some(session) => request@->SessionEnd_session == Some(session@),
                None => request@->SessionEnd_session is None,
            },
            Request::StopSpeech { session } => request@ is StopSpeech && match session {
                Some(session) => request@->StopSpeech_session == Some(session@),
                None => request@->StopSpeech_session is None,
            },
            Request::Status => request@ is Status,
            Request::ModelStatus => request@ is ModelStatus,
            Request::TestRecognitionStart => request@ is TestRecognitionStart,
            Request::TestRecognitionStop => request@ is TestRecognitionStop,
        },
        match event {
            FrontendEvent::RecordingStarted => event@ is RecordingStarted,
            FrontendEvent::Partial { text } => event@ == (FrontendEventView::Partial {
                text: text@,
            }),
            FrontendEvent::AwaitingConfirm { text } => event@
                == (FrontendEventView::AwaitingConfirm { text: text@ }),
            FrontendEvent::Deliver { text, submit } => event@ == (FrontendEventView::Deliver {
                text: text@,
                submit,
            }),
            FrontendEvent::Cancelled => event@ is Cancelled,
            FrontendEvent::Refused => event@ is Refused,
            FrontendEvent::Unknown => event@ is Unknown,
        },
        match response {
            Response::Status { tts_active, queued, paused, muted } => response@
                == (ResponseView::Status { tts_active, queued, paused, muted }),
            Response::Done => response@ is Done,
            Response::Listening => response@ is Listening,
            Response::Partial { text } => response@ == (ResponseView::Partial { text: text@ }),
            Response::Transcript { text } => response@ == (ResponseView::Transcript {
                text: text@,
            }),
            Response::ModelStatus { status } => response@ == (ResponseView::ModelStatus {
                status: status@,
            }),
            Response::Error { message } => response@ == (ResponseView::Error {
                message: message@,
            }),
            Response::FrontendEvent { event, seq } => response@ == (ResponseView::FrontendEvent {
                event: event@,
                seq,
            }),
            Response::Unknown => response@ is Unknown,
        },
{
}

} // verus!
