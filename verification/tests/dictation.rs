use dontspeak::client::ReceivedEvent;
use dontspeak::connection::{DontSpeak, Effect, Event, Status};
use dontspeak::dictation::{
    DictationController, DictationPhase, Followup, DELIVER_DEADLINE, DELIVER_POLL_INTERVAL,
};
use dontspeak::protocol::FrontendEvent;
use dontspeak::window_ops::DictationWindowOps;
use std::cell::RefCell;
use std::rc::Rc;

#[derive(Clone, Debug, PartialEq)]
enum Call {
    SetMarked(u64, String),
    ClearMarked(u64),
    Insert(u64, String),
    Enter(u64),
    Ack(u64, bool),
}

struct FakeState {
    active_window: Option<u64>,
    mark_result: bool,
    insert_result: bool,
    calls: Vec<Call>,
}

struct FakeOps(Rc<RefCell<FakeState>>);

impl DictationWindowOps for FakeOps {
    type Context = ();

    fn active_window(&self, _cx: &()) -> Option<u64> {
        self.0.borrow().active_window
    }

    fn set_marked_text(&self, window: u64, text: &str, _cx: &mut ()) -> bool {
        let mut state = self.0.borrow_mut();
        state.calls.push(Call::SetMarked(window, text.to_string()));
        state.mark_result
    }

    fn clear_marked_text(&self, window: u64, _cx: &mut ()) -> bool {
        self.0.borrow_mut().calls.push(Call::ClearMarked(window));
        true
    }

    fn insert_text(&self, window: u64, text: &str, _cx: &mut ()) -> bool {
        let mut state = self.0.borrow_mut();
        state.calls.push(Call::Insert(window, text.to_string()));
        state.insert_result
    }

    fn dispatch_enter(&self, window: u64, _cx: &mut ()) -> bool {
        self.0.borrow_mut().calls.push(Call::Enter(window));
        true
    }

    fn ack(&self, seq: u64, ok: bool, _cx: &mut ()) {
        self.0.borrow_mut().calls.push(Call::Ack(seq, ok));
    }
}

struct Fixture {
    state: Rc<RefCell<FakeState>>,
    controller: DictationController<FakeOps>,
    /// The numbers under which delivers are polled.
    polling: Vec<usize>,
    windows: u64,
}

impl Fixture {
    fn new() -> Self {
        let state = Rc::new(RefCell::new(FakeState {
            active_window: None,
            mark_result: true,
            insert_result: true,
            calls: Vec::new(),
        }));
        let controller = DictationController::new(FakeOps(state.clone()));
        Self {
            state,
            controller,
            polling: Vec::new(),
            windows: 0,
        }
    }

    fn window(&mut self) -> u64 {
        self.windows += 1;
        self.windows
    }

    fn activate(&self, window: Option<u64>) {
        self.state.borrow_mut().active_window = window;
    }

    fn send(&mut self, seq: u64, event: FrontendEvent) -> Followup {
        let followup = self
            .controller
            .handle_frontend_event(ReceivedEvent { seq, event }, &mut ());
        self.polling.extend(followup.poll);
        followup
    }

    /// Lets this many milliseconds pass.
    fn advance_clock(&mut self, milliseconds: u64) {
        for _ in 0..milliseconds / DELIVER_POLL_INTERVAL {
            let controller = &mut self.controller;
            self.polling
                .retain(|&generation| !controller.poll_deliver(generation, &mut ()));
        }
    }

    fn calls(&self) -> Vec<Call> {
        self.state.borrow().calls.clone()
    }

    fn clear_calls(&self) {
        self.state.borrow_mut().calls.clear();
    }

    fn phase(&self) -> DictationPhase {
        self.controller.phase()
    }
}

fn partial(text: &str) -> FrontendEvent {
    FrontendEvent::Partial { text: text.into() }
}

fn deliver(text: &str, submit: bool) -> FrontendEvent {
    FrontendEvent::Deliver {
        text: text.into(),
        submit,
    }
}

#[test]
fn test_full_cycle_marks_partials_and_delivers_with_submit() {
    let mut fixture = Fixture::new();
    let window = fixture.window();
    fixture.activate(Some(window));

    fixture.send(1, FrontendEvent::RecordingStarted);
    assert_eq!(fixture.phase(), DictationPhase::Recording);

    fixture.send(2, partial("hello wor"));
    fixture.send(
        3,
        FrontendEvent::AwaitingConfirm {
            text: "hello world".into(),
        },
    );
    assert_eq!(fixture.phase(), DictationPhase::AwaitingConfirm);

    fixture.send(4, deliver("hello world", true));
    assert_eq!(fixture.phase(), DictationPhase::Idle);

    // Submit bookkeeping order: clear mark, insert, Enter, then ack.
    assert_eq!(
        fixture.calls(),
        vec![
            Call::SetMarked(window, "".into()),
            Call::SetMarked(window, "hello wor".into()),
            Call::SetMarked(window, "hello world".into()),
            Call::ClearMarked(window),
            Call::Insert(window, "hello world".into()),
            Call::Enter(window),
            Call::Ack(4, true),
        ]
    );
}

#[test]
fn test_deliver_without_submit_skips_enter() {
    let mut fixture = Fixture::new();
    let window = fixture.window();
    fixture.activate(Some(window));

    fixture.send(1, deliver("hello", false));
    assert_eq!(
        fixture.calls(),
        vec![Call::Insert(window, "hello".into()), Call::Ack(1, true)]
    );
}

#[test]
fn test_focus_moved_mid_dictation_retargets_the_mark() {
    let mut fixture = Fixture::new();
    let first = fixture.window();
    let second = fixture.window();

    fixture.activate(Some(first));
    fixture.send(1, FrontendEvent::RecordingStarted);
    fixture.send(2, partial("hel"));

    // Focus moves to another window between events: the old window's mark is
    // cleared before the new window is marked.
    fixture.activate(Some(second));
    fixture.send(3, partial("hello"));

    assert_eq!(
        fixture.calls(),
        vec![
            Call::SetMarked(first, "".into()),
            Call::SetMarked(first, "hel".into()),
            Call::ClearMarked(first),
            Call::SetMarked(second, "hello".into()),
        ]
    );

    // The deliver lands in the newly focused window.
    fixture.clear_calls();
    fixture.send(4, deliver("hello", false));
    assert_eq!(
        fixture.calls(),
        vec![
            Call::ClearMarked(second),
            Call::Insert(second, "hello".into()),
            Call::Ack(4, true),
        ]
    );
}

#[test]
fn test_cancelled_clears_the_mark() {
    let mut fixture = Fixture::new();
    let window = fixture.window();
    fixture.activate(Some(window));

    fixture.send(1, FrontendEvent::RecordingStarted);
    fixture.send(2, partial("hel"));
    fixture.send(3, FrontendEvent::Cancelled);

    assert_eq!(fixture.phase(), DictationPhase::Idle);
    assert_eq!(
        fixture.calls(),
        vec![
            Call::SetMarked(window, "".into()),
            Call::SetMarked(window, "hel".into()),
            Call::ClearMarked(window),
        ]
    );
}

#[test]
fn test_failed_mark_is_not_tracked() {
    let mut fixture = Fixture::new();
    let window = fixture.window();
    fixture.activate(Some(window));
    fixture.state.borrow_mut().mark_result = false;

    fixture.send(1, partial("hel"));
    fixture.send(2, FrontendEvent::Cancelled);

    // The mark attempt failed, so there is nothing to clear on cancel.
    assert_eq!(fixture.calls(), vec![Call::SetMarked(window, "hel".into())]);
}

#[test]
fn test_deliver_with_no_window_nacks_after_the_deadline() {
    let mut fixture = Fixture::new();
    fixture.activate(None);

    fixture.send(7, deliver("hello", true));
    assert_eq!(fixture.calls(), vec![], "the deliver must be buffered");

    fixture.advance_clock(DELIVER_DEADLINE + DELIVER_POLL_INTERVAL);
    assert_eq!(fixture.calls(), vec![Call::Ack(7, false)]);
}

#[test]
fn test_buffered_deliver_lands_when_a_window_activates() {
    let mut fixture = Fixture::new();
    let window = fixture.window();
    fixture.activate(None);

    fixture.send(8, deliver("hi", false));
    fixture.activate(Some(window));
    fixture.advance_clock(DELIVER_POLL_INTERVAL * 2);

    assert_eq!(
        fixture.calls(),
        vec![Call::Insert(window, "hi".into()), Call::Ack(8, true)]
    );

    // The poll is done: nothing further happens at the deadline.
    fixture.clear_calls();
    fixture.advance_clock(DELIVER_DEADLINE * 2);
    assert_eq!(fixture.calls(), vec![]);
}

#[test]
fn test_failed_insert_nacks_and_skips_enter() {
    let mut fixture = Fixture::new();
    let window = fixture.window();
    fixture.activate(Some(window));
    fixture.state.borrow_mut().insert_result = false;

    fixture.send(4, deliver("hello", true));
    assert_eq!(
        fixture.calls(),
        vec![Call::Insert(window, "hello".into()), Call::Ack(4, false)]
    );
}

#[test]
fn test_new_recording_nacks_a_buffered_deliver() {
    let mut fixture = Fixture::new();
    fixture.activate(None);

    fixture.send(5, deliver("hello", false));
    fixture.send(6, FrontendEvent::RecordingStarted);
    assert_eq!(fixture.calls(), vec![Call::Ack(5, false)]);

    // The superseded poll is inert even past the deadline.
    fixture.clear_calls();
    fixture.advance_clock(DELIVER_DEADLINE * 2);
    assert_eq!(fixture.calls(), vec![]);
}

/// End-to-end through the connection: losing it mid-dictation clears the
/// marked text and resets the controller to idle, without an ack.
#[test]
fn test_losing_the_daemon_connection_resets_the_controller() {
    let (mut dontspeak, _) = DontSpeak::<()>::new(true);

    let mut fixture = Fixture::new();
    let window = fixture.window();
    fixture.activate(Some(window));

    fixture.send(1, FrontendEvent::RecordingStarted);
    fixture.send(2, partial("hel"));
    assert_eq!(fixture.phase(), DictationPhase::Recording);
    fixture.clear_calls();

    // Disabling the integration tears the connection down; the controller
    // observes the status change.
    for effect in dontspeak.handle_settings_changed(false) {
        if let Effect::Emit(event) = effect {
            fixture
                .controller
                .handle_event(&event, dontspeak.status().is_connected(), &mut ());
        }
    }
    assert_eq!(dontspeak.status(), Status::Disabled);

    assert_eq!(fixture.phase(), DictationPhase::Idle);
    assert_eq!(fixture.calls(), vec![Call::ClearMarked(window)]);
}

#[test]
fn a_lost_connection_drops_a_buffered_deliver_without_an_ack() {
    let mut fixture = Fixture::new();
    fixture.send(3, deliver("hello", false));
    let followup = fixture
        .controller
        .handle_event(&Event::StatusChanged, false, &mut ());
    assert_eq!(
        followup,
        Followup {
            notify: false,
            poll: None
        }
    );
    fixture.advance_clock(DELIVER_DEADLINE * 2);
    assert_eq!(fixture.calls(), vec![]);
}

#[test]
fn a_status_that_stays_connected_changes_nothing() {
    let mut fixture = Fixture::new();
    let window = fixture.window();
    fixture.activate(Some(window));
    fixture.send(1, partial("hel"));
    fixture.controller.handle_event(&Event::StatusChanged, true, &mut ());
    assert_eq!(fixture.phase(), DictationPhase::Recording);
    assert_eq!(fixture.calls(), vec![Call::SetMarked(window, "hel".into())]);
}

#[test]
fn an_input_that_stops_taking_text_loses_its_mark() {
    let mut fixture = Fixture::new();
    let window = fixture.window();
    fixture.activate(Some(window));
    fixture.send(1, partial("hel"));
    fixture.state.borrow_mut().mark_result = false;
    fixture.send(2, partial("hello"));
    assert_eq!(
        fixture.calls(),
        vec![
            Call::SetMarked(window, "hel".into()),
            Call::SetMarked(window, "hello".into()),
            Call::ClearMarked(window),
        ]
    );
}

#[test]
fn a_mark_is_cleared_when_no_window_is_active_any_more() {
    let mut fixture = Fixture::new();
    let window = fixture.window();
    fixture.activate(Some(window));
    fixture.send(1, partial("hel"));
    fixture.activate(None);
    fixture.send(2, partial("hello"));
    fixture.send(3, FrontendEvent::Refused);
    assert_eq!(
        fixture.calls(),
        vec![
            Call::SetMarked(window, "hel".into()),
            Call::ClearMarked(window)
        ]
    );
}

#[test]
fn an_unknown_event_leaves_the_dictation_as_it_is() {
    let mut fixture = Fixture::new();
    let window = fixture.window();
    fixture.activate(Some(window));
    fixture.send(1, partial("hel"));
    fixture.clear_calls();
    let followup = fixture.send(2, FrontendEvent::Unknown);
    assert!(!followup.notify);
    assert_eq!(fixture.phase(), DictationPhase::Recording);
    assert_eq!(fixture.calls(), vec![]);
}

#[test]
fn a_second_deliver_nacks_the_first_and_is_acked_once() {
    let mut fixture = Fixture::new();
    fixture.send(1, deliver("one", false));
    fixture.send(2, deliver("two", false));
    assert_eq!(fixture.calls(), vec![Call::Ack(1, false)]);
    let window = fixture.window();
    fixture.activate(Some(window));
    fixture.advance_clock(DELIVER_DEADLINE * 2);
    assert_eq!(
        fixture.calls(),
        vec![
            Call::Ack(1, false),
            Call::Insert(window, "two".into()),
            Call::Ack(2, true)
        ]
    );
}

#[test]
fn each_deliver_is_inserted_and_acked_once() {
    let mut fixture = Fixture::new();
    let window = fixture.window();
    fixture.activate(Some(window));
    for (seq, went_in) in [(1, true), (2, false), (3, true)] {
        fixture.state.borrow_mut().insert_result = went_in;
        fixture.send(seq, deliver(&format!("text {seq}"), false));
        fixture.send(seq + 10, FrontendEvent::Cancelled);
    }
    fixture.advance_clock(DELIVER_DEADLINE);
    assert_eq!(
        fixture.calls(),
        vec![
            Call::Insert(window, "text 1".into()),
            Call::Ack(1, true),
            Call::Insert(window, "text 2".into()),
            Call::Ack(2, false),
            Call::Insert(window, "text 3".into()),
            Call::Ack(3, true),
        ]
    );
}

#[test]
fn a_buffered_deliver_is_nacked_exactly_at_the_deadline() {
    let mut fixture = Fixture::new();
    fixture.send(9, deliver("hello", false));
    fixture.advance_clock(DELIVER_DEADLINE - DELIVER_POLL_INTERVAL);
    assert_eq!(fixture.calls(), vec![]);
    fixture.advance_clock(DELIVER_POLL_INTERVAL);
    assert_eq!(fixture.calls(), vec![Call::Ack(9, false)]);
}

#[test]
fn only_a_change_of_phase_asks_to_render_anew() {
    let mut fixture = Fixture::new();
    assert!(fixture.send(1, FrontendEvent::RecordingStarted).notify);
    assert!(!fixture.send(2, partial("a")).notify);
    assert!(fixture.send(3, FrontendEvent::Cancelled).notify);
    assert!(!fixture.send(4, FrontendEvent::Cancelled).notify);
}
