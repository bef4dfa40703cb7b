//! The client side of the daemon's socket.
//!
//! Nothing here opens a socket: bytes that arrived go in, and what to write,
//! what was received and what to do next come out.

use crate::protocol::{
    decode_response, encode_request, lemma_request_is_one_line, request_text, response_on,
    terminal, DecodeError, FrontendEvent, FrontendEventView, Request, RequestView, Response,
    ResponseView,
};
use crate::lines::{
    behind_line, decoded, decoded_or, found, has_line, left_over, lemma_chunks, lemma_first_found,
    lemma_found, lemma_found_in_chunks, lemma_left_over_has_no_line, lemma_line_end,
    lemma_nothing_found, lemma_scanned, lemma_scanned_left_over, lemma_written_line, lines, meant,
    scanned, utf8_error, LineReader,
};
use crate::text::{blank, is_blank};
use std::io::ErrorKind;
use vstd::prelude::*;
use vstd::utf8::{decode_utf8, encode_utf8, valid_utf8};

verus! {

/// The name under which the editor subscribes. The daemon knows the
/// application's windows by it.
pub const APP_TAG: &'static str = "zed";

/// A frontend event received from the daemon, with the sequence number that an
/// ack of a `deliver` names.
#[derive(Debug, PartialEq, Eq)]
pub struct ReceivedEvent {
    pub seq: u64,
    pub event: FrontendEvent,
}

/// What a [`ReceivedEvent`] says.
pub struct ReceivedEventView {
    pub seq: u64,
    pub event: FrontendEventView,
}

impl View for ReceivedEvent {
    type V = ReceivedEventView;

    open spec fn view(&self) -> ReceivedEventView {
        ReceivedEventView { seq: self.seq, event: self.event@ }
    }
}

impl Clone for ReceivedEvent {
    fn clone(&self) -> (copy: ReceivedEvent)
        ensures
            copy@ == self@,
    {
        ReceivedEvent { seq: self.seq, event: self.event.clone() }
    }
}

/// One cause in an error's chain, as far as it says whether a daemon listens.
#[derive(Clone, Copy, Debug, PartialEq, Eq, Structural)]
pub enum Cause {
    /// An I/O error: no such file.
    NotFound,
    /// An I/O error: nothing accepts connections there.
    ConnectionRefused,
    /// An I/O error: the address is not available.
    AddrNotAvailable,
    /// Any other I/O error.
    OtherIo,
    /// No I/O error.
    Other,
}

#[verifier::external_type_specification]
#[verifier::external_body]
pub struct ExAnyhowError(anyhow::Error);

/// The causes that an error's chain holds, from the outermost in.
pub uninterp spec fn error_causes(error: anyhow::Error) -> Seq<Cause>;

/// `anyhow::Error::chain`, with each cause that `downcast_ref` finds to be a
/// `std::io::Error` told by its `kind`.
#[verifier::external_body]
fn causes(error: &anyhow::Error) -> (causes: Vec<Cause>)
    ensures
        causes@ == error_causes(*error),
{
    let tell = |io_error: &std::io::Error| match io_error.kind() {
        ErrorKind::NotFound => Cause::NotFound,
        ErrorKind::ConnectionRefused => Cause::ConnectionRefused,
        ErrorKind::AddrNotAvailable => Cause::AddrNotAvailable,
        _ => Cause::OtherIo,
    };
    error.chain().map(|cause| cause.downcast_ref().map_or(Cause::Other, tell)).collect()
}

/// A cause that means "no daemon is listening".
pub open spec fn absent_cause(cause: Cause) -> bool {
    cause is NotFound || cause is ConnectionRefused || cause is AddrNotAvailable
}

/// Whether one of the causes means "no daemon is listening".
pub open spec fn names_absence(causes: Seq<Cause>) -> bool {
    exists|i: int| 0 <= i < causes.len() && absent_cause(#[trigger] causes[i])
}

/// Whether one of the causes means "no daemon is listening".
pub fn any_absent(causes: &Vec<Cause>) -> (yes: bool)
    ensures
        yes == names_absence(causes@),
{
    let mut i: usize = 0;
    while i < causes.len()
        invariant
            i <= causes.len(),
            forall|k: int| 0 <= k < i ==> !absent_cause(#[trigger] causes@[k]),
        decreases causes.len() - i,
    {
        match causes[i] {
            Cause::NotFound | Cause::ConnectionRefused | Cause::AddrNotAvailable => {
                assert(absent_cause(causes@[i as int]));
                return true;
            },
            _ => {},
        }
        i += 1;
    }
    false
}

/// Whether an error means "no daemon is listening" (the socket file is missing
/// or stale) rather than a real failure. The whole chain counts, so callers
/// may add context freely.
pub fn is_absent_error(error: &anyhow::Error) -> (yes: bool)
    ensures
        yes == names_absence(error_causes(*error)),
{
    any_absent(&causes(error))
}

// --- Errors ---

/// Why an exchange with the daemon failed.
#[derive(Debug, PartialEq, Eq)]
pub enum ClientError {
    /// Reading from or writing to the connection failed.
    Io { reason: String },
    /// A line from the daemon is no UTF-8.
    Encoding { reason: String },
    /// A line from the daemon is no response.
    Malformed { line: String, error: DecodeError },
    /// The daemon refused the frontend subscription.
    Rejected { message: String },
    /// The daemon closed the connection and has not answered the request.
    Unanswered,
    /// The daemon closed the frontend connection.
    HungUp,
}

/// What a [`ClientError`] says.
pub enum ClientErrorView {
    Io { reason: Seq<char> },
    Encoding { reason: Seq<char> },
    Malformed { line: Seq<char>, error: DecodeError },
    Rejected { message: Seq<char> },
    Unanswered,
    HungUp,
}

impl View for ClientError {
    type V = ClientErrorView;

    open spec fn view(&self) -> ClientErrorView {
        match self {
            ClientError::Io { reason } => ClientErrorView::Io { reason: reason@ },
            ClientError::Encoding { reason } => ClientErrorView::Encoding { reason: reason@ },
            ClientError::Malformed { line, error } => ClientErrorView::Malformed {
                line: line@,
                error: *error,
            },
            ClientError::Rejected { message } => ClientErrorView::Rejected { message: message@ },
            ClientError::Unanswered => ClientErrorView::Unanswered,
            ClientError::HungUp => ClientErrorView::HungUp,
        }
    }
}

// --- What lines mean ---

/// The text of a line, or the error of a line that is no UTF-8.
pub open spec fn line_text(line: Seq<u8>) -> Result<Seq<char>, ClientErrorView> {
    match decoded_or(line, utf8_error(line)) {
        Ok(text) => Ok(text),
        Err(reason) => Err(ClientErrorView::Encoding { reason }),
    }
}

/// The response on a line, or why there is none.
pub open spec fn line_response(line: Seq<u8>) -> Result<ResponseView, ClientErrorView> {
    match line_text(line) {
        Err(error) => Err(error),
        Ok(text) => match response_on(text) {
            Ok(response) => Ok(response),
            Err(error) => Err(ClientErrorView::Malformed { line: text, error }),
        },
    }
}

/// What a line means to a reader of one reply: lines that stream before the
/// reply are passed over.
pub open spec fn reply_line(line: Seq<u8>) -> Option<Result<ResponseView, ClientErrorView>> {
    match line_response(line) {
        Err(error) => Some(Err(error)),
        Ok(response) => if terminal(response) {
            Some(Ok(response))
        } else {
            None
        },
    }
}

/// [`reply_line`] as a value.
pub open spec fn reply_meaning() -> spec_fn(Seq<u8>) -> Option<
    Result<ResponseView, ClientErrorView>,
> {
    |line: Seq<u8>| reply_line(line)
}

/// What a line means on a frontend subscription: blank lines and lines that
/// are no event are passed over, and an error line ends the subscription.
pub open spec fn event_line(line: Seq<u8>) -> Option<Result<ReceivedEventView, ClientErrorView>> {
    match line_text(line) {
        Err(error) => Some(Err(error)),
        Ok(text) => if blank(text) {
            None
        } else {
            match line_response(line) {
                Err(error) => Some(Err(error)),
                Ok(ResponseView::FrontendEvent { event, seq }) => Some(
                    Ok(ReceivedEventView { seq, event }),
                ),
                Ok(ResponseView::Error { message }) => Some(
                    Err(ClientErrorView::Rejected { message }),
                ),
                Ok(_) => None,
            }
        },
    }
}

/// [`event_line`] as a value.
pub open spec fn event_meaning() -> spec_fn(Seq<u8>) -> Option<
    Result<ReceivedEventView, ClientErrorView>,
> {
    |line: Seq<u8>| event_line(line)
}

/// What a decoded line says.
pub open spec fn response_or_error(response: Result<Response, ClientError>) -> Result<
    ResponseView,
    ClientErrorView,
> {
    match response {
        Ok(response) => Ok(response@),
        Err(error) => Err(error@),
    }
}

/// What a read reply says.
pub open spec fn reply_view(reply: Option<Result<Response, ClientError>>) -> Option<
    Result<ResponseView, ClientErrorView>,
> {
    match reply {
        Some(reply) => Some(response_or_error(reply)),
        None => None,
    }
}

/// What a read event says.
pub open spec fn received_view(event: Option<Result<ReceivedEvent, ClientError>>) -> Option<
    Result<ReceivedEventView, ClientErrorView>,
> {
    match event {
        Some(Ok(event)) => Some(Ok(event@)),
        Some(Err(error)) => Some(Err(error@)),
        None => None,
    }
}

/// The response on a line's text.
pub fn parse_line(text: String) -> (response: Result<Response, ClientError>)
    ensures
        response_or_error(response) == match response_on(text@) {
            Ok(response) => Ok(response),
            Err(error) => Err(ClientErrorView::Malformed { line: text@, error }),
        },
{
    match decode_response(text.as_str()) {
        Ok(response) => Ok(response),
        Err(error) => Err(ClientError::Malformed { line: text, error }),
    }
}

/// A request as it is written to the connection: one line, with its newline.
pub fn request_line(request: &Request) -> (line: String)
    ensures
        line@ == request_text(request@).push('\n'),
        !request_text(request@).contains('\n'),
{
    let mut line = encode_request(request);
    line.push('\n');
    line
}

// --- One-shot requests ---

/// The reading side of a request on a connection of its own.
pub struct OneShot {
    lines: LineReader,
}

impl View for OneShot {
    type V = Seq<u8>;

    closed spec fn view(&self) -> Seq<u8> {
        self.lines@
    }
}

/// Starts a one-shot request: the line to write to a fresh connection, and the
/// reader of its reply.
pub fn request(sent: &Request) -> (exchange: (String, OneShot))
    ensures
        exchange.0@ == request_text(sent@).push('\n'),
        exchange.1@ == Seq::<u8>::empty(),
{
    (request_line(sent), OneShot { lines: LineReader::new() })
}

impl OneShot {
    /// Takes in bytes that arrived. Gives the first terminal response, or the
    /// error of a line that is none, and `None` while more has to be read.
    pub fn receive(&mut self, chunk: &[u8]) -> (reply: Option<Result<Response, ClientError>>)
        ensures
            (reply_view(reply), final(self)@) == scanned(old(self)@ + chunk@, reply_meaning()),
    {
        self.lines.receive(chunk);
        let ghost bytes = self.lines@;
        loop
            invariant
                scanned(self.lines@, reply_meaning()) == scanned(bytes, reply_meaning()),
                bytes == old(self)@ + chunk@,
            decreases self.lines@.len(),
        {
            let ghost before = self.lines@;
            proof {
                lemma_line_end(before);
            }
            match self.lines.next_line() {
                None => {
                    return None;
                },
                Some(Err(reason)) => {
                    return Some(Err(ClientError::Encoding { reason }));
                },
                Some(Ok(text)) => match parse_line(text) {
                    Err(error) => {
                        return Some(Err(error));
                    },
                    Ok(response) => {
                        if response.is_terminal() {
                            return Some(Ok(response));
                        }
                    },
                },
            }
        }
    }

    /// The error of a connection that ended before its reply.
    pub fn closed(&self) -> (error: ClientError)
        ensures
            error@ == ClientErrorView::Unanswered,
    {
        ClientError::Unanswered
    }
}

// --- The frontend subscription ---

/// The reading side of a frontend subscription: the daemon's dictation events.
pub struct FrontendEvents {
    lines: LineReader,
}

impl View for FrontendEvents {
    type V = Seq<u8>;

    closed spec fn view(&self) -> Seq<u8> {
        self.lines@
    }
}

impl FrontendEvents {
    /// Takes in bytes that arrived.
    pub fn receive(&mut self, chunk: &[u8])
        ensures
            final(self)@ == old(self)@ + chunk@,
    {
        self.lines.receive(chunk);
    }

    /// The next frontend event of what has arrived, and `None` while more has
    /// to be read. A daemon's error line fails the subscription, as when the
    /// daemon's own settings turn frontends off.
    pub fn next(&mut self) -> (event: Option<Result<ReceivedEvent, ClientError>>)
        ensures
            (received_view(event), final(self)@) == scanned(old(self)@, event_meaning()),
    {
        let ghost bytes = self.lines@;
        loop
            invariant
                scanned(self.lines@, event_meaning()) == scanned(bytes, event_meaning()),
                bytes == old(self)@,
            decreases self.lines@.len(),
        {
            let ghost before = self.lines@;
            proof {
                lemma_line_end(before);
            }
            match self.lines.next_line() {
                None => {
                    return None;
                },
                Some(Err(reason)) => {
                    return Some(Err(ClientError::Encoding { reason }));
                },
                Some(Ok(text)) => {
                    if !is_blank(text.as_str()) {
                        match parse_line(text) {
                            Err(error) => {
                                return Some(Err(error));
                            },
                            Ok(Response::FrontendEvent { event, seq }) => {
                                return Some(Ok(ReceivedEvent { seq, event }));
                            },
                            Ok(Response::Error { message }) => {
                                return Some(Err(ClientError::Rejected { message }));
                            },
                            Ok(_) => {},
                        }
                    }
                },
            }
        }
    }
}

/// The writing side of a frontend subscription: acks to the daemon.
pub struct FrontendSink {}

impl FrontendSink {
    /// The line that acknowledges the deliver event with this `seq`.
    pub fn ack(&self, seq: u64, ok: bool) -> (line: String)
        ensures
            line@ == request_text(RequestView::AckDeliver { seq, ok }).push('\n'),
    {
        request_line(&Request::AckDeliver { seq, ok })
    }
}

/// Opens a frontend subscription: the line to write to a fresh connection, and
/// the two sides of what follows.
pub fn subscribe(app: &str) -> (subscription: (String, FrontendEvents, FrontendSink))
    ensures
        subscription.0@ == request_text(RequestView::SubscribeFrontend { app: app@ }).push('\n'),
        subscription.1@ == Seq::<u8>::empty(),
{
    (
        request_line(&Request::SubscribeFrontend { app: app.to_string() }),
        FrontendEvents { lines: LineReader::new() },
        FrontendSink {  },
    )
}

/// What waits on the queue of acks.
#[derive(Clone, Copy, Debug, PartialEq, Eq, Structural)]
pub enum AckQueue {
    /// No ack waits.
    Empty,
    /// This ack waits.
    Ready { seq: u64, ok: bool },
    /// The owner dropped the queue's sender.
    Closed,
}

/// What happened on a subscription.
pub enum PumpInput<'a> {
    /// The last step is done.
    Turn(AckQueue),
    /// These bytes arrived.
    Arrived(&'a [u8]),
    /// The daemon closed the connection.
    Closed,
    /// Reading or writing failed.
    Failed(String),
    /// An event could not be handed on: the owner dropped its receiver.
    OwnerGone,
}

/// What to do next on a subscription.
#[derive(Debug, PartialEq, Eq)]
pub enum PumpStep {
    /// Take a turn.
    Turn,
    /// Write this line, which is an ack.
    Write(String),
    /// Hand this event to the owner.
    Forward(ReceivedEvent),
    /// Wait for an ack or for bytes, whichever comes first.
    Wait,
    /// The subscription is over: the owner hung up, or the connection failed
    /// and has to be made anew.
    Finish(Result<(), ClientError>),
}

/// What a [`PumpStep`] says.
pub enum PumpStepView {
    Turn,
    Write(Seq<char>),
    Forward(ReceivedEventView),
    Wait,
    Finish(Result<(), ClientErrorView>),
}

impl View for PumpStep {
    type V = PumpStepView;

    open spec fn view(&self) -> PumpStepView {
        match self {
            PumpStep::Turn => PumpStepView::Turn,
            PumpStep::Write(line) => PumpStepView::Write(line@),
            PumpStep::Forward(event) => PumpStepView::Forward(event@),
            PumpStep::Wait => PumpStepView::Wait,
            PumpStep::Finish(Ok(())) => PumpStepView::Finish(Ok(())),
            PumpStep::Finish(Err(error)) => PumpStepView::Finish(Err(error@)),
        }
    }
}

/// A turn: an ack that waits goes first, then the next event.
pub open spec fn pump_turn(bytes: Seq<u8>, acks: AckQueue) -> (PumpStepView, Seq<u8>) {
    match acks {
        AckQueue::Ready { seq, ok } => (
            PumpStepView::Write(request_text(RequestView::AckDeliver { seq, ok }).push('\n')),
            bytes,
        ),
        AckQueue::Closed => (PumpStepView::Finish(Ok(())), bytes),
        AckQueue::Empty => {
            let (event, rest) = scanned(bytes, event_meaning());
            match event {
                Some(Ok(event)) => (PumpStepView::Forward(event), rest),
                Some(Err(error)) => (PumpStepView::Finish(Err(error)), rest),
                None => (PumpStepView::Wait, rest),
            }
        },
    }
}

/// A step of a subscription, and the bytes that are left behind it.
pub open spec fn pumped(bytes: Seq<u8>, input: PumpInput) -> (PumpStepView, Seq<u8>) {
    match input {
        PumpInput::Turn(acks) => pump_turn(bytes, acks),
        PumpInput::Arrived(chunk) => (PumpStepView::Turn, bytes + chunk@),
        PumpInput::Closed => (PumpStepView::Finish(Err(ClientErrorView::HungUp)), bytes),
        PumpInput::Failed(reason) => (
            PumpStepView::Finish(Err(ClientErrorView::Io { reason: reason@ })),
            bytes,
        ),
        PumpInput::OwnerGone => (PumpStepView::Finish(Ok(())), bytes),
    }
}

/// One step of a subscription: events go to the owner and acks to the daemon.
///
/// It ends well where the owner hangs up, and with an error where the
/// connection fails or the daemon closes it.
pub fn run_subscription(events: &mut FrontendEvents, sink: &FrontendSink, input: PumpInput) -> (step:
    PumpStep)
    ensures
        (step@, final(events)@) == pumped(old(events)@, input),
{
    match input {
        PumpInput::Turn(AckQueue::Ready { seq, ok }) => PumpStep::Write(sink.ack(seq, ok)),
        PumpInput::Turn(AckQueue::Closed) => PumpStep::Finish(Ok(())),
        PumpInput::Turn(AckQueue::Empty) => match events.next() {
            Some(Ok(event)) => PumpStep::Forward(event),
            Some(Err(error)) => PumpStep::Finish(Err(error)),
            None => PumpStep::Wait,
        },
        PumpInput::Arrived(chunk) => {
            events.receive(chunk);
            PumpStep::Turn
        },
        PumpInput::Closed => PumpStep::Finish(Err(ClientError::HungUp)),
        PumpInput::Failed(reason) => PumpStep::Finish(Err(ClientError::Io { reason })),
        PumpInput::OwnerGone => PumpStep::Finish(Ok(())),
    }
}

// --- Wording of errors ---

/// A text as `{:?}` shows it.
pub uninterp spec fn debug_text(text: Seq<char>) -> Seq<char>;

/// `format!` with `{:?}` on a `str`: the text in quotes, with what cannot be
/// printed escaped.
#[verifier::external_body]
pub(crate) fn debug(text: &str) -> (shown: String)
    ensures
        shown@ == debug_text(text@),
{
    format!("{text:?}")
}

/// The wording of a line that is no response, from the line as it is shown and
/// the reason.
pub open spec fn malformed_text(shown: Seq<char>, reason: Seq<char>) -> Seq<char> {
    "parsing daemon line "@ + shown + ": "@ + reason
}

/// The wording of an error, with the reason that a malformed line is no
/// response.
pub open spec fn error_text(error: ClientError, reason: Seq<char>) -> Seq<char> {
    match error {
        ClientError::Io { reason } => reason@,
        ClientError::Encoding { reason } => reason@,
        ClientError::Malformed { line, .. } => malformed_text(debug_text(line@), reason),
        ClientError::Rejected { message } =>
            "the daemon rejected the frontend subscription: "@ + message@,
        ClientError::Unanswered =>
            "the daemon closed the connection before a terminal response"@,
        ClientError::HungUp => "the daemon closed the frontend connection"@,
    }
}

/// The wording of a line that is no response, from the line as it is shown and
/// the reason.
pub fn malformed_message(shown: &str, reason: &str) -> (message: String)
    ensures
        message@ == malformed_text(shown@, reason@),
{
    let mut message = "parsing daemon line ".to_string();
    message.append(shown);
    message.append(": ");
    message.append(reason);
    message
}

impl ClientError {
    /// The error in words. Of a malformed line `reason` says why it is no
    /// response, in the words of the caller's parser of responses; of the other
    /// errors it says nothing.
    pub fn message(&self, reason: &str) -> (message: String)
        ensures
            message@ == error_text(*self, reason@),
    {
        match self {
            ClientError::Io { reason } => reason.clone(),
            ClientError::Encoding { reason } => reason.clone(),
            ClientError::Malformed { line, .. } => malformed_message(
                debug(line.as_str()).as_str(),
                reason,
            ),
            ClientError::Rejected { message } => {
                let mut text = "the daemon rejected the frontend subscription: ".to_string();
                text.append(message.as_str());
                text
            },
            ClientError::Unanswered =>
                "the daemon closed the connection before a terminal response".to_string(),
            ClientError::HungUp => "the daemon closed the frontend connection".to_string(),
        }
    }
}

// --- Laws ---

/// Context that is added to an error does not hide that no daemon is
/// listening.
pub proof fn lemma_context_keeps_absence(context: Seq<Cause>, causes: Seq<Cause>)
    requires
        names_absence(causes),
    ensures
        names_absence(context + causes),
{
    let i = choose|i: int| 0 <= i < causes.len() && absent_cause(#[trigger] causes[i]);
    assert((context + causes)[context.len() + i] == causes[i]);
}

/// Context that holds no I/O error changes nothing: an error with it means that
/// no daemon is listening if and only if the error without it does.
pub proof fn lemma_context_is_neutral(context: Seq<Cause>, causes: Seq<Cause>)
    requires
        forall|i: int| 0 <= i < context.len() ==> (#[trigger] context[i]) is Other,
    ensures
        names_absence(context + causes) <==> names_absence(causes),
{
    if names_absence(causes) {
        lemma_context_keeps_absence(context, causes);
    }
    if names_absence(context + causes) {
        let all = context + causes;
        let i = choose|i: int| 0 <= i < all.len() && absent_cause(#[trigger] all[i]);
        if i < context.len() {
            assert(all[i] == context[i]);
        } else {
            assert(all[i] == causes[i - context.len()]);
        }
    }
}

/// A reply is a terminal response.
pub proof fn lemma_reply_is_terminal(bytes: Seq<u8>)
    ensures
        scanned(bytes, reply_meaning()).0 matches Some(Ok(response)) ==> terminal(response),
    decreases bytes.len(),
{
    if has_line(bytes) {
        lemma_line_end(bytes);
        lemma_reply_is_terminal(behind_line(bytes));
    }
}

/// Requests as they are written to a connection, one after the other.
pub open spec fn written(requests: Seq<RequestView>) -> Seq<u8>
    decreases requests.len(),
{
    if requests.len() == 0 {
        seq![]
    } else {
        encode_utf8(request_text(requests[0]).push('\n')) + written(requests.skip(1))
    }
}

/// Requests that were written are read as lines: as many, in their order, each
/// with the text that decodes to the request again, and nothing is left over.
pub proof fn lemma_written_requests(requests: Seq<RequestView>)
    ensures
        lines(written(requests)).len() == requests.len(),
        forall|i: int|
            0 <= i < requests.len() ==> decoded(#[trigger] lines(written(requests))[i]) == Some(
                request_text(requests[i]),
            ),
        left_over(written(requests)) == Seq::<u8>::empty(),
    decreases requests.len(),
{
    let bytes = written(requests);
    if requests.len() == 0 {
        lemma_line_end(bytes);
    } else {
        let text = request_text(requests[0]);
        let rest = written(requests.skip(1));
        lemma_request_is_one_line(requests[0]);
        assert(text.last() == '}');
        lemma_written_line(text, rest);
        lemma_line_end(bytes);
        lemma_written_requests(requests.skip(1));
        assert forall|i: int| 0 <= i < requests.len() implies decoded(
            #[trigger] lines(bytes)[i],
        ) == Some(request_text(requests[i])) by {
            if i > 0 {
                assert(lines(bytes)[i] == lines(rest)[i - 1]);
                assert(requests.skip(1)[i - 1] == requests[i]);
            }
        }
    }
}

/// A subscription ends well only where its owner hangs up, and then always.
pub proof fn lemma_who_ends(bytes: Seq<u8>, input: PumpInput)
    ensures
        pumped(bytes, input).0 == PumpStepView::Finish(Ok(())) <==> (input is OwnerGone || input
            == PumpInput::Turn(AckQueue::Closed)),
{
}

// --- Whole subscriptions ---

/// The bytes that inputs of a subscription bring.
pub open spec fn arrived(inputs: Seq<PumpInput>) -> Seq<u8>
    decreases inputs.len(),
{
    if inputs.len() == 0 {
        seq![]
    } else {
        match inputs.last() {
            PumpInput::Arrived(chunk) => arrived(inputs.drop_last()) + chunk@,
            _ => arrived(inputs.drop_last()),
        }
    }
}

/// The acks that inputs of a subscription bring from the queue, in their order,
/// as lines.
pub open spec fn queued(inputs: Seq<PumpInput>) -> Seq<Seq<char>>
    decreases inputs.len(),
{
    if inputs.len() == 0 {
        seq![]
    } else {
        match inputs.last() {
            PumpInput::Turn(AckQueue::Ready { seq, ok }) => queued(inputs.drop_last()).push(
                request_text(RequestView::AckDeliver { seq, ok }).push('\n'),
            ),
            _ => queued(inputs.drop_last()),
        }
    }
}

/// The steps of a subscription, and the bytes that are left behind them.
pub open spec fn pumped_through(bytes: Seq<u8>, inputs: Seq<PumpInput>) -> (
    Seq<PumpStepView>,
    Seq<u8>,
)
    decreases inputs.len(),
{
    if inputs.len() == 0 {
        (seq![], bytes)
    } else {
        let before = pumped_through(bytes, inputs.drop_last());
        let next = pumped(before.1, inputs.last());
        (before.0.push(next.0), next.1)
    }
}

/// The events that steps hand to the owner, in their order.
pub open spec fn forwarded(steps: Seq<PumpStepView>) -> Seq<ReceivedEventView>
    decreases steps.len(),
{
    if steps.len() == 0 {
        seq![]
    } else {
        match steps.last() {
            PumpStepView::Forward(event) => forwarded(steps.drop_last()).push(event),
            _ => forwarded(steps.drop_last()),
        }
    }
}

/// The lines that steps write to the daemon, in their order.
pub open spec fn lines_written(steps: Seq<PumpStepView>) -> Seq<Seq<char>>
    decreases steps.len(),
{
    if steps.len() == 0 {
        seq![]
    } else {
        match steps.last() {
            PumpStepView::Write(line) => lines_written(steps.drop_last()).push(line),
            _ => lines_written(steps.drop_last()),
        }
    }
}

/// The subscription goes on behind these steps.
pub open spec fn goes_on(steps: Seq<PumpStepView>) -> bool {
    forall|i: int| 0 <= i < steps.len() ==> !((#[trigger] steps[i]) is Finish)
}

/// What events are to a reader of lines.
pub open spec fn as_found(events: Seq<ReceivedEventView>) -> Seq<
    Result<ReceivedEventView, ClientErrorView>,
> {
    Seq::new(events.len(), |i: int| Ok(events[i]))
}

proof fn lemma_pumped_through(bytes: Seq<u8>, inputs: Seq<PumpInput>)
    requires
        goes_on(pumped_through(bytes, inputs).0),
    ensures
        ({
            let (steps, rest) = pumped_through(bytes, inputs);
            let all = bytes + arrived(inputs);
            &&& left_over(rest) == left_over(all)
            &&& found(all, event_meaning()) == as_found(forwarded(steps)) + found(
                rest,
                event_meaning(),
            )
        }),
    decreases inputs.len(),
{
    let meaning = event_meaning();
    let (steps, rest) = pumped_through(bytes, inputs);
    let all = bytes + arrived(inputs);
    if inputs.len() == 0 {
        assert(all =~= bytes);
        assert(as_found(forwarded(steps)) + found(bytes, meaning) =~= found(bytes, meaning));
    } else {
        let before_inputs = inputs.drop_last();
        let (before, left) = pumped_through(bytes, before_inputs);
        let so_far = bytes + arrived(before_inputs);
        assert(steps.drop_last() =~= before);
        assert forall|i: int| 0 <= i < before.len() implies !((#[trigger] before[i]) is Finish) by {
            assert(before[i] == steps[i]);
        }
        lemma_pumped_through(bytes, before_inputs);
        assert(steps.last() == pumped(left, inputs.last()).0);
        assert(!(steps[steps.len() - 1] is Finish));
        match inputs.last() {
            PumpInput::Arrived(chunk) => {
                assert(all =~= so_far + chunk@);
                lemma_chunks(so_far, chunk@);
                lemma_chunks(left, chunk@);
                lemma_found_in_chunks(so_far, chunk@, meaning);
                lemma_found_in_chunks(left, chunk@, meaning);
                assert(found(all, meaning) =~= as_found(forwarded(steps)) + found(rest, meaning));
            },
            PumpInput::Turn(AckQueue::Empty) => {
                lemma_scanned(left, meaning);
                lemma_scanned_left_over(left, meaning);
                if let PumpStepView::Forward(event) = steps.last() {
                    assert(as_found(forwarded(steps)) =~= as_found(forwarded(before)).push(
                        Ok(event),
                    ));
                    assert(found(all, meaning) =~= as_found(forwarded(steps)) + found(
                        rest,
                        meaning,
                    ));
                } else {
                    lemma_found(rest, meaning);
                    lemma_left_over_has_no_line(left);
                }
            },
            _ => {},
        }
    }
}

/// In a subscription the events that are handed to the owner are those on the
/// daemon's lines, each once and in their order, however the bytes arrive: at
/// any time they are the first of them, and where the subscription waits, they
/// are all that have arrived.
pub proof fn lemma_events_are_forwarded_in_order(bytes: Seq<u8>, inputs: Seq<PumpInput>)
    requires
        goes_on(pumped_through(bytes, inputs).0.drop_last()),
    ensures
        ({
            let steps = pumped_through(bytes, inputs).0;
            let events = meant(lines(bytes + arrived(inputs)), event_meaning());
            &&& as_found(forwarded(steps)).is_prefix_of(events)
            &&& steps.len() > 0 && steps.last() is Wait ==> as_found(forwarded(steps)) == events
        }),
{
    let meaning = event_meaning();
    let (steps, rest) = pumped_through(bytes, inputs);
    let all = bytes + arrived(inputs);
    lemma_found(all, meaning);
    if inputs.len() > 0 {
        let before_inputs = inputs.drop_last();
        let (before, left) = pumped_through(bytes, before_inputs);
        assert(steps.drop_last() =~= before);
        if steps.last() is Finish {
            lemma_pumped_through(bytes, before_inputs);
            assert(arrived(inputs) == arrived(before_inputs));
        } else {
            assert forall|i: int| 0 <= i < steps.len() implies !((
            #[trigger] steps[i]) is Finish) by {
                if i < before.len() {
                    assert(steps[i] == steps.drop_last()[i]);
                }
            }
            lemma_pumped_through(bytes, inputs);
            if steps.last() is Wait {
                lemma_scanned(left, meaning);
                lemma_left_over_has_no_line(left);
                assert(found(rest, meaning) =~= seq![]);
            }
        }
    } else {
        lemma_pumped_through(bytes, inputs);
    }
}

/// In a subscription the lines that are written are the acks from the queue,
/// each once and in the order in which they were queued.
pub proof fn lemma_acks_are_written_in_order(bytes: Seq<u8>, inputs: Seq<PumpInput>)
    ensures
        lines_written(pumped_through(bytes, inputs).0) == queued(inputs),
    decreases inputs.len(),
{
    if inputs.len() > 0 {
        lemma_acks_are_written_in_order(bytes, inputs.drop_last());
        let steps = pumped_through(bytes, inputs).0;
        assert(steps.drop_last() =~= pumped_through(bytes, inputs.drop_last()).0);
    }
}

// --- What lines mean ---

/// A line is read as UTF-8 and as a response, and nothing else stands between: a
/// line that is no UTF-8 and one that is no response are errors, which keep what
/// came in.
pub proof fn lemma_line_response(line: Seq<u8>)
    ensures
        !valid_utf8(line) ==> line_response(line) == Err::<ResponseView, _>(
            ClientErrorView::Encoding { reason: utf8_error(line) },
        ),
        valid_utf8(line) ==> match response_on(decode_utf8(line)) {
            Ok(response) => line_response(line) == Ok::<_, ClientErrorView>(response),
            Err(error) => line_response(line) == Err::<ResponseView, _>(
                ClientErrorView::Malformed { line: decode_utf8(line), error },
            ),
        },
{
}

/// Every terminal response on a line is a reply as it stands, whichever it is; no
/// other response is one; and a line that is no response fails the request.
pub proof fn lemma_reply_line(line: Seq<u8>)
    ensures
        reply_meaning()(line) == reply_line(line),
        match line_response(line) {
            Ok(response) => {
                &&& terminal(response) ==> reply_line(line) == Some(
                    Ok::<_, ClientErrorView>(response),
                )
                &&& !terminal(response) ==> reply_line(line) is None
            },
            Err(error) => reply_line(line) == Some(Err::<ResponseView, _>(error)),
        },
{
}

/// The reply to a request is the first terminal response that arrived, or the
/// error of a line before it that is no response: whatever lines stand before it
/// that are responses but not terminal ones are passed over, and whatever stands
/// behind it is left.
pub proof fn lemma_first_reply(bytes: Seq<u8>, at: int)
    requires
        0 <= at < lines(bytes).len(),
        forall|k: int|
            0 <= k < at ==> (line_response(#[trigger] lines(bytes)[k]) matches Ok(response)
                && !terminal(response)),
        line_response(lines(bytes)[at]) matches Ok(response) ==> terminal(response),
    ensures
        scanned(bytes, reply_meaning()).0 == Some(line_response(lines(bytes)[at])),
        lines(scanned(bytes, reply_meaning()).1) == lines(bytes).skip(at + 1),
{
    lemma_first_found(bytes, reply_meaning(), at);
}

/// While no line is a terminal response or an error there is no reply, and only
/// the line that is not complete yet is kept.
pub proof fn lemma_no_reply(bytes: Seq<u8>)
    requires
        forall|k: int|
            0 <= k < lines(bytes).len() ==> (line_response(
                #[trigger] lines(bytes)[k],
            ) matches Ok(response) && !terminal(response)),
    ensures
        scanned(bytes, reply_meaning()).0 is None,
        scanned(bytes, reply_meaning()).1 == left_over(bytes),
{
    lemma_nothing_found(bytes, reply_meaning());
}

/// On a subscription a line of white space means nothing. Every frontend event
/// is one, with its number; the daemon's error rejects the subscription in its
/// own words; a line that is no UTF-8 or no response is an error; and every other
/// response is passed over.
pub proof fn lemma_event_line(line: Seq<u8>)
    ensures
        event_meaning()(line) == event_line(line),
        !valid_utf8(line) ==> event_line(line) == Some(
            Err::<ReceivedEventView, _>(ClientErrorView::Encoding { reason: utf8_error(line) }),
        ),
        valid_utf8(line) && blank(decode_utf8(line)) ==> event_line(line) is None,
        valid_utf8(line) && !blank(decode_utf8(line)) ==> match response_on(decode_utf8(line)) {
            Ok(ResponseView::FrontendEvent { event, seq }) => event_line(line) == Some(
                Ok::<_, ClientErrorView>(ReceivedEventView { seq, event }),
            ),
            Ok(ResponseView::Error { message }) => event_line(line) == Some(
                Err::<ReceivedEventView, _>(ClientErrorView::Rejected { message }),
            ),
            Ok(_) => event_line(line) is None,
            Err(error) => event_line(line) == Some(
                Err::<ReceivedEventView, _>(
                    ClientErrorView::Malformed { line: decode_utf8(line), error },
                ),
            ),
        },
{
}

/// The next event of a subscription is that of the first line that means
/// something, and none while no line does.
pub proof fn lemma_first_event(bytes: Seq<u8>, at: int)
    requires
        0 <= at <= lines(bytes).len(),
        forall|k: int| 0 <= k < at ==> event_line(#[trigger] lines(bytes)[k]) is None,
        at < lines(bytes).len() ==> event_line(lines(bytes)[at]) is Some,
    ensures
        at < lines(bytes).len() ==> scanned(bytes, event_meaning()).0 == event_line(
            lines(bytes)[at],
        ) && lines(scanned(bytes, event_meaning()).1) == lines(bytes).skip(at + 1),
        at == lines(bytes).len() ==> scanned(bytes, event_meaning()) == (
            None::<Result<ReceivedEventView, ClientErrorView>>,
            left_over(bytes),
        ),
{
    if at < lines(bytes).len() {
        lemma_first_found(bytes, event_meaning(), at);
    } else {
        lemma_nothing_found(bytes, event_meaning());
    }
}

/// What each input of a subscription leads to: bytes are kept and looked at; an
/// ack that waits is written before anything is forwarded; the next event is
/// forwarded where there is one; the daemon's end, a failure and an error line
/// end the subscription with their error, and the owner's end ends it well.
pub proof fn lemma_pump_step(bytes: Seq<u8>, chunk: &[u8], reason: String, seq: u64, ok: bool)
    ensures
        pumped(bytes, PumpInput::Arrived(chunk)) == (PumpStepView::Turn, bytes + chunk@),
        pumped(bytes, PumpInput::Turn(AckQueue::Ready { seq, ok })) == (
            PumpStepView::Write(request_text(RequestView::AckDeliver { seq, ok }).push('\n')),
            bytes,
        ),
        pumped(bytes, PumpInput::Turn(AckQueue::Closed)).0 == PumpStepView::Finish(Ok(())),
        pumped(bytes, PumpInput::OwnerGone).0 == PumpStepView::Finish(Ok(())),
        pumped(bytes, PumpInput::Closed).0 == PumpStepView::Finish(Err(ClientErrorView::HungUp)),
        pumped(bytes, PumpInput::Failed(reason)).0 == PumpStepView::Finish(
            Err(ClientErrorView::Io { reason: reason@ }),
        ),
        ({
            let step = pumped(bytes, PumpInput::Turn(AckQueue::Empty));
            &&& step.1 == scanned(bytes, event_meaning()).1
            &&& match scanned(bytes, event_meaning()).0 {
                Some(Ok(event)) => step.0 == PumpStepView::Forward(event),
                Some(Err(error)) => step.0 == PumpStepView::Finish(Err(error)),
                None => step.0 == PumpStepView::Wait,
            }
        }),
{
}

/// The words of an error: a failure and bad encoding in those of the system, a
/// malformed line with the line and the parser's reason, a rejection with the
/// daemon's reason, and the two ways the daemon can hang up.
pub proof fn lemma_error_words(error: ClientError, reason: Seq<char>)
    ensures
        match error {
            ClientError::Io { reason: own } => error_text(error, reason) == own@,
            ClientError::Encoding { reason: own } => error_text(error, reason) == own@,
            ClientError::Malformed { line, .. } => error_text(error, reason)
                == "parsing daemon line "@ + debug_text(line@) + ": "@ + reason,
            ClientError::Rejected { message } => error_text(error, reason)
                == "the daemon rejected the frontend subscription: "@ + message@,
            ClientError::Unanswered => error_text(error, reason)
                == "the daemon closed the connection before a terminal response"@,
            ClientError::HungUp => error_text(error, reason)
                == "the daemon closed the frontend connection"@,
        },
{
}

/// No daemon is listening exactly where some cause is a missing file, a refused
/// connection or an address that cannot be had, wherever in the chain it stands.
pub proof fn lemma_absence(causes: Seq<Cause>)
    ensures
        names_absence(causes) <==> exists|i: int|
            0 <= i < causes.len() && ((#[trigger] causes[i]) is NotFound
                || causes[i] is ConnectionRefused || causes[i] is AddrNotAvailable),
{
    if names_absence(causes) {
        let i = choose|i: int| 0 <= i < causes.len() && absent_cause(#[trigger] causes[i]);
        assert(causes[i] is NotFound || causes[i] is ConnectionRefused
            || causes[i] is AddrNotAvailable);
    }
    assert forall|i: int|
        0 <= i < causes.len() && ((#[trigger] causes[i]) is NotFound
            || causes[i] is ConnectionRefused
            || causes[i] is AddrNotAvailable) implies names_absence(causes) by {
        assert(absent_cause(causes[i]));
    }
}

/// What errors, events and steps say is all that they hold.
pub proof fn lemma_nothing_is_lost(
    error: ClientError,
    event: ReceivedEvent,
    step: PumpStep,
    reply: Response,
)
    ensures
        match error {
            ClientError::Io { reason } => error@ == (ClientErrorView::Io { reason: reason@ }),
            ClientError::Encoding { reason } => error@ == (ClientErrorView::Encoding {
                reason: reason@,
            }),
            ClientError::Malformed { line, error: why } => error@ == (ClientErrorView::Malformed {
                line: line@,
                error: why,
            }),
            ClientError::Rejected { message } => error@ == (ClientErrorView::Rejected {
                message: message@,
            }),
            ClientError::Unanswered => error@ is Unanswered,
            ClientError::HungUp => error@ is HungUp,
        },
        event@ == (ReceivedEventView { seq: event.seq, event: event.event@ }),
        match step {
            PumpStep::Turn => step@ is Turn,
            PumpStep::Write(line) => step@ == PumpStepView::Write(line@),
            PumpStep::Forward(event) => step@ == PumpStepView::Forward(event@),
            PumpStep::Wait => step@ is Wait,
            PumpStep::Finish(Ok(_)) => step@ == PumpStepView::Finish(Ok(())),
            PumpStep::Finish(Err(error)) => step@ == PumpStepView::Finish(Err(error@)),
        },
        reply_view(None) is None,
        reply_view(Some(Ok(reply))) == Some(Ok::<_, ClientErrorView>(reply@)),
        reply_view(Some(Err(error))) == Some(Err::<ResponseView, _>(error@)),
        received_view(None) is None,
        received_view(Some(Ok(event))) == Some(Ok::<_, ClientErrorView>(event@)),
        received_view(Some(Err(error))) == Some(Err::<ReceivedEventView, _>(error@)),
{
}

} // verus!
