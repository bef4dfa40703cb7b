//! Dictation into the focused input.
//!
//! [`DictationController`] takes the daemon's dictation events and shows them
//! as marked text, the way an input method does, in whatever input is focused.
//! It remembers which window it marked, so that no mark is left behind where
//! the focus moves to another window, and it answers every `deliver` event
//! with an ack. The ack is `ok: false` where the text could not be inserted:
//! the daemon then pastes the text itself, and no utterance is lost.
//!
//! All window operations go through [`DictationWindowOps`].

use crate::client::{ReceivedEvent, ReceivedEventView};
use crate::connection::{next_generation, Event, EventView};
use crate::protocol::{FrontendEvent, FrontendEventView};
use crate::window_ops::{Call, DictationWindowOps, Recorded, WindowId};
use vstd::prelude::*;

verus! {

/// How often a buffered deliver looks for an active window, in milliseconds.
pub const DELIVER_POLL_INTERVAL: u64 = 25;

/// How long a deliver that found no active window is buffered before it is
/// nacked, in milliseconds. The daemon's own deadline is about twice as long,
/// so it hears the nack.
pub const DELIVER_DEADLINE: u64 = 150;

/// Where the dictation in flight is in its lifecycle.
#[derive(Clone, Copy, Debug, PartialEq, Eq, Structural)]
pub enum DictationPhase {
    /// No dictation in flight.
    Idle,
    /// The microphone is live; partials are streaming in.
    Recording,
    /// Recording ended; the daemon waits for the confirm gesture.
    AwaitingConfirm,
}

/// What the window operations answered while an event was handled.
pub struct Answers {
    pub active: Option<WindowId>,
    pub accepted: bool,
    pub inserted: bool,
}

// --- The state ---

/// A deliver that arrived while no window was active.
struct PendingDeliver {
    seq: u64,
    generation: usize,
    text: String,
    submit: bool,
    waited: u64,
}

impl PendingDeliver {
    #[verifier::type_invariant]
    spec fn in_time(self) -> bool {
        self.waited < DELIVER_DEADLINE
    }
}

/// A deliver that waits for a window: what it is, and for how many
/// milliseconds it has waited.
pub struct PendingView {
    pub seq: u64,
    pub generation: usize,
    pub text: Seq<char>,
    pub submit: bool,
    pub waited: int,
}

/// See the module's documentation.
pub struct DictationController<O> {
    ops: Recorded<O>,
    phase: DictationPhase,
    /// The window whose focused input holds our marked text.
    marked_window: Option<WindowId>,
    pending_deliver: Option<PendingDeliver>,
    /// Counts the delivers that were buffered or superseded, so that a poll of
    /// an earlier one notices.
    generation: usize,
}

/// What a [`DictationController`] holds.
pub struct DictationView {
    pub phase: DictationPhase,
    pub marked: Option<WindowId>,
    pub pending: Option<PendingView>,
    pub generation: usize,
}

impl<O> View for DictationController<O> {
    type V = DictationView;

    closed spec fn view(&self) -> DictationView {
        DictationView {
            phase: self.phase,
            marked: self.marked_window,
            pending: match self.pending_deliver {
                Some(pending) => Some(
                    PendingView {
                        seq: pending.seq,
                        generation: pending.generation,
                        text: pending.text@,
                        submit: pending.submit,
                        waited: pending.waited as int,
                    },
                ),
                None => None,
            },
            generation: self.generation,
        }
    }
}

/// A state, and the window operations that were called up to it.
pub struct Progress {
    pub state: DictationView,
    pub calls: Seq<Call>,
}

impl<O: DictationWindowOps> DictationController<O> {
    /// The window operations that were called.
    pub closed spec fn calls(&self) -> Seq<Call> {
        self.ops@
    }

    /// The state, and the window operations that were called up to it.
    pub open spec fn progress(&self) -> Progress {
        Progress { state: self@, calls: self.calls() }
    }
}

/// What the caller has to do behind an event.
#[derive(Clone, Copy, Debug, PartialEq, Eq, Structural)]
pub struct Followup {
    /// Render anew what shows the phase.
    pub notify: bool,
    /// Poll the deliver that was buffered under this number.
    pub poll: Option<usize>,
}

// --- What events do ---

/// A controller that is new.
pub open spec fn fresh() -> Progress {
    Progress {
        state: DictationView {
            phase: DictationPhase::Idle,
            marked: None,
            pending: None,
            generation: 0,
        },
        calls: seq![],
    }
}

/// A call more.
pub open spec fn called(progress: Progress, call: Call) -> Progress {
    Progress { calls: progress.calls.push(call), ..progress }
}

/// A new phase.
pub open spec fn in_phase(progress: Progress, phase: DictationPhase) -> Progress {
    Progress { state: DictationView { phase, ..progress.state }, ..progress }
}

/// The window that holds our mark, if any, is another one.
pub open spec fn tracking(progress: Progress, marked: Option<WindowId>) -> Progress {
    Progress { state: DictationView { marked, ..progress.state }, ..progress }
}

/// Another deliver, or none, waits for a window.
pub open spec fn awaiting(progress: Progress, pending: Option<PendingView>) -> Progress {
    Progress { state: DictationView { pending, ..progress.state }, ..progress }
}

/// A buffered deliver is superseded: it is nacked at once, so that the daemon
/// does not have to wait.
pub open spec fn nacked(progress: Progress) -> Progress {
    let state = DictationView {
        pending: None,
        generation: next_generation(progress.state.generation),
        ..progress.state
    };
    match progress.state.pending {
        Some(pending) => called(
            Progress { state, ..progress },
            Call::Ack { seq: pending.seq, ok: false },
        ),
        None => Progress { state, ..progress },
    }
}

/// The mark, if any, is removed.
pub open spec fn unmarked(progress: Progress) -> Progress {
    match progress.state.marked {
        Some(window) => called(tracking(progress, None), Call::ClearMarked { window }),
        None => progress,
    }
}

/// The mark of another window than the active one is removed.
pub open spec fn retargeted(progress: Progress, active: Option<WindowId>) -> Progress {
    if progress.state.marked is Some && active != progress.state.marked {
        unmarked(progress)
    } else {
        progress
    }
}

/// Text is marked in the active window. Where its focused input does not take
/// the text, a mark that it had is removed.
pub open spec fn marked(
    progress: Progress,
    text: Seq<char>,
    active: Option<WindowId>,
    accepted: bool,
) -> Progress {
    let asked = called(progress, Call::Active { window: active });
    let clean = retargeted(asked, active);
    match active {
        None => clean,
        Some(window) => {
            let set = called(clean, Call::SetMarked { window, text, accepted });
            if accepted {
                tracking(set, Some(window))
            } else {
                unmarked(set)
            }
        },
    }
}

/// A deliver is carried out: insert, press Enter where asked and the text is
/// in, then ack whether it is in.
pub open spec fn performed(
    progress: Progress,
    window: WindowId,
    seq: u64,
    text: Seq<char>,
    submit: bool,
    inserted: bool,
) -> Progress {
    let typed = called(progress, Call::Insert { window, text, inserted });
    let entered = if inserted && submit {
        called(typed, Call::Enter { window })
    } else {
        typed
    };
    called(entered, Call::Ack { seq, ok: inserted })
}

/// A deliver is buffered: no window is active.
pub open spec fn buffered(progress: Progress, seq: u64, text: Seq<char>, submit: bool) -> Progress {
    let generation = next_generation(progress.state.generation);
    Progress {
        state: DictationView {
            pending: Some(PendingView { seq, generation, text, submit, waited: 0 }),
            generation,
            ..progress.state
        },
        ..progress
    }
}

/// What an event does, with what the window operations answered.
pub open spec fn handled(
    progress: Progress,
    received: ReceivedEventView,
    answers: Answers,
) -> Progress {
    match received.event {
        FrontendEventView::RecordingStarted => marked(
            in_phase(nacked(progress), DictationPhase::Recording),
            Seq::empty(),
            answers.active,
            answers.accepted,
        ),
        FrontendEventView::Partial { text } => marked(
            in_phase(progress, DictationPhase::Recording),
            text,
            answers.active,
            answers.accepted,
        ),
        FrontendEventView::AwaitingConfirm { text } => marked(
            in_phase(progress, DictationPhase::AwaitingConfirm),
            text,
            answers.active,
            answers.accepted,
        ),
        FrontendEventView::Deliver { text, submit } => {
            let clean = unmarked(in_phase(nacked(progress), DictationPhase::Idle));
            let ready = called(clean, Call::Active { window: answers.active });
            match answers.active {
                Some(window) => performed(
                    ready,
                    window,
                    received.seq,
                    text,
                    submit,
                    answers.inserted,
                ),
                None => buffered(ready, received.seq, text, submit),
            }
        },
        FrontendEventView::Cancelled | FrontendEventView::Refused => unmarked(
            in_phase(nacked(progress), DictationPhase::Idle),
        ),
        FrontendEventView::Unknown => progress,
    }
}

/// What a poll of the deliver that was buffered under a number does.
pub open spec fn polled(progress: Progress, generation: usize, answers: Answers) -> Progress {
    match progress.state.pending {
        Some(pending) => if pending.generation != generation {
            progress
        } else {
            let waited = pending.waited + DELIVER_POLL_INTERVAL;
            let asked = called(progress, Call::Active { window: answers.active });
            match answers.active {
                Some(window) => performed(
                    awaiting(asked, None),
                    window,
                    pending.seq,
                    pending.text,
                    pending.submit,
                    answers.inserted,
                ),
                None => if waited >= DELIVER_DEADLINE {
                    called(awaiting(asked, None), Call::Ack { seq: pending.seq, ok: false })
                } else {
                    awaiting(asked, Some(PendingView { waited, ..pending }))
                },
            }
        },
        None => progress,
    }
}

/// What the loss of the connection does: an ack has nowhere to go, so a
/// buffered deliver is dropped.
pub open spec fn reset(progress: Progress) -> Progress {
    let dropped = Progress {
        state: DictationView {
            pending: None,
            generation: next_generation(progress.state.generation),
            ..progress.state
        },
        ..progress
    };
    in_phase(unmarked(dropped), DictationPhase::Idle)
}

/// Whether a deliver that was buffered under a number still waits.
pub open spec fn waits(state: DictationView, generation: usize) -> bool {
    state.pending is Some && state.pending->0.generation == generation
}

/// What the caller has to do behind a change.
pub open spec fn followup(
    before: DictationView,
    after: DictationView,
    event: FrontendEventView,
) -> Followup {
    Followup {
        notify: before.phase != after.phase,
        poll: match (event, after.pending) {
            (FrontendEventView::Deliver { .. }, Some(pending)) => Some(pending.generation),
            _ => None,
        },
    }
}

impl<O: DictationWindowOps> DictationController<O> {
    pub fn new(ops: O) -> (controller: DictationController<O>)
        ensures
            controller.progress() == fresh(),
    {
        DictationController {
            ops: Recorded::new(ops),
            phase: DictationPhase::Idle,
            marked_window: None,
            pending_deliver: None,
            generation: 0,
        }
    }

    pub fn phase(&self) -> (phase: DictationPhase)
        ensures
            phase == self@.phase,
    {
        self.phase
    }

    /// Takes what the connection tells: a dictation event, or a new status.
    pub fn handle_event(
        &mut self,
        event: &Event,
        connected: bool,
        cx: &mut O::Context,
    ) -> (next: Followup)
        ensures
            match event@ {
                EventView::FrontendEvent(received) => {
                    &&& exists|answers: Answers| #[trigger]
                        handled(old(self).progress(), received, answers) == final(self).progress()
                    &&& next == followup(old(self)@, final(self)@, received.event)
                },
                EventView::StatusChanged => if connected {
                    &&& final(self).progress() == old(self).progress()
                    &&& next == (Followup { notify: false, poll: None })
                } else {
                    &&& final(self).progress() == reset(old(self).progress())
                    &&& next == (Followup {
                        notify: old(self)@.phase != DictationPhase::Idle,
                        poll: None,
                    })
                },
            },
    {
        match event {
            Event::FrontendEvent(received) => self.handle_frontend_event(received.clone(), cx),
            Event::StatusChanged => if connected {
                Followup { notify: false, poll: None }
            } else {
                Followup { notify: self.reset(cx), poll: None }
            },
        }
    }

    /// Applies one dictation event from the daemon.
    pub fn handle_frontend_event(
        &mut self,
        received: ReceivedEvent,
        cx: &mut O::Context,
    ) -> (next: Followup)
        ensures
            exists|answers: Answers| #[trigger]
                handled(old(self).progress(), received@, answers) == final(self).progress(),
            next == followup(old(self)@, final(self)@, received@.event),
    {
        let ghost start = self.progress();
        match received.event {
            FrontendEvent::RecordingStarted => {
                self.nack_pending_deliver(cx);
                let notify = self.set_phase(DictationPhase::Recording);
                let ghost before = self.progress();
                proof {
                    reveal_strlit("");
                    assert(""@ =~= Seq::<char>::empty());
                }
                self.mark_text("", cx);
                proof {
                    let (active, accepted) = choose|active: Option<WindowId>, accepted: bool|
                        self.progress() == #[trigger] marked(before, ""@, active, accepted);
                    assert(self.progress() == handled(
                        start,
                        received@,
                        Answers { active, accepted, inserted: false },
                    ));
                }
                Followup { notify, poll: None }
            },
            FrontendEvent::Partial { text } => {
                let notify = self.set_phase(DictationPhase::Recording);
                let ghost before = self.progress();
                self.mark_text(text.as_str(), cx);
                proof {
                    let (active, accepted) = choose|active: Option<WindowId>, accepted: bool|
                        self.progress() == #[trigger] marked(before, text@, active, accepted);
                    assert(self.progress() == handled(
                        start,
                        received@,
                        Answers { active, accepted, inserted: false },
                    ));
                }
                Followup { notify, poll: None }
            },
            FrontendEvent::AwaitingConfirm { text } => {
                let notify = self.set_phase(DictationPhase::AwaitingConfirm);
                let ghost before = self.progress();
                self.mark_text(text.as_str(), cx);
                proof {
                    let (active, accepted) = choose|active: Option<WindowId>, accepted: bool|
                        self.progress() == #[trigger] marked(before, text@, active, accepted);
                    assert(self.progress() == handled(
                        start,
                        received@,
                        Answers { active, accepted, inserted: false },
                    ));
                }
                Followup { notify, poll: None }
            },
            FrontendEvent::Deliver { text, submit } => {
                self.nack_pending_deliver(cx);
                let notify = self.set_phase(DictationPhase::Idle);
                self.clear_mark(cx);
                match self.ops.active_window(cx) {
                    Some(window) => {
                        let inserted = self.perform_deliver(
                            window,
                            received.seq,
                            text.as_str(),
                            submit,
                            cx,
                        );
                        proof {
                            let answers = Answers {
                                active: Some(window),
                                accepted: false,
                                inserted,
                            };
                            assert(self.progress() == handled(start, received@, answers));
                        }
                        Followup { notify, poll: None }
                    },
                    None => {
                        let generation = self.buffer_deliver(received.seq, text, submit);
                        proof {
                            let answers = Answers {
                                active: None,
                                accepted: false,
                                inserted: false,
                            };
                            assert(self.progress() == handled(start, received@, answers));
                        }
                        Followup { notify, poll: Some(generation) }
                    },
                }
            },
            FrontendEvent::Cancelled | FrontendEvent::Refused => {
                self.nack_pending_deliver(cx);
                let notify = self.set_phase(DictationPhase::Idle);
                self.clear_mark(cx);
                proof {
                    let answers = Answers { active: None, accepted: false, inserted: false };
                    assert(self.progress() == handled(start, received@, answers));
                }
                Followup { notify, poll: None }
            },
            FrontendEvent::Unknown => {
                proof {
                    let answers = Answers { active: None, accepted: false, inserted: false };
                    assert(self.progress() == handled(start, received@, answers));
                }
                Followup { notify: false, poll: None }
            },
        }
    }

    /// The connection is gone: a buffered deliver is dropped, the marked text
    /// is removed, and no dictation is in flight. Tells whether the phase
    /// changed.
    fn reset(&mut self, cx: &mut O::Context) -> (notify: bool)
        ensures
            final(self).progress() == reset(old(self).progress()),
            notify == (old(self)@.phase != DictationPhase::Idle),
    {
        self.advance();
        self.pending_deliver = None;
        self.clear_mark(cx);
        self.set_phase(DictationPhase::Idle)
    }

    fn advance(&mut self)
        ensures
            final(self).progress() == (Progress {
                state: DictationView {
                    generation: next_generation(old(self)@.generation),
                    ..old(self)@
                },
                ..old(self).progress()
            }),
    {
        if self.generation == usize::MAX {
            self.generation = 0;
        } else {
            self.generation = self.generation + 1;
        }
    }

    fn set_phase(&mut self, phase: DictationPhase) -> (changed: bool)
        ensures
            final(self).progress() == in_phase(old(self).progress(), phase),
            changed == (old(self)@.phase != phase),
    {
        if self.phase != phase {
            self.phase = phase;
            true
        } else {
            false
        }
    }

    /// Sets marked text in the active window's focused input. The mark of
    /// another window is removed first.
    fn mark_text(&mut self, text: &str, cx: &mut O::Context)
        ensures
            exists|active: Option<WindowId>, accepted: bool|
                final(self).progress() == #[trigger] marked(
                    old(self).progress(),
                    text@,
                    active,
                    accepted,
                ),
    {
        let ghost start = self.progress();
        let active = self.ops.active_window(cx);
        if let Some(old_window) = self.marked_window {
            let moved = match active {
                Some(window) => window != old_window,
                None => true,
            };
            if moved {
                self.ops.clear_marked_text(old_window, cx);
                self.marked_window = None;
            }
        }
        assert(self.progress() == retargeted(
            called(start, Call::Active { window: active }),
            active,
        ));
        let window = match active {
            Some(window) => window,
            None => {
                assert(self.progress() == marked(start, text@, active, false));
                return;
            },
        };
        let accepted = self.ops.set_marked_text(window, text, cx);
        if accepted {
            self.marked_window = Some(window);
        } else {
            self.clear_mark(cx);
        }
        assert(self.progress() == marked(start, text@, active, accepted));
    }

    fn clear_mark(&mut self, cx: &mut O::Context)
        ensures
            final(self).progress() == unmarked(old(self).progress()),
    {
        if let Some(window) = self.marked_window {
            self.marked_window = None;
            self.ops.clear_marked_text(window, cx);
        }
    }

    /// Inserts the final transcript, presses Enter where asked, and acks, in
    /// this order. The ack tells only of the insertion: once the text is in,
    /// the utterance is delivered. Tells whether the text is in.
    fn perform_deliver(
        &mut self,
        window: WindowId,
        seq: u64,
        text: &str,
        submit: bool,
        cx: &mut O::Context,
    ) -> (inserted: bool)
        ensures
            final(self).progress() == performed(
                old(self).progress(),
                window,
                seq,
                text@,
                submit,
                inserted,
            ),
    {
        let inserted = self.ops.insert_text(window, text, cx);
        if inserted && submit {
            self.ops.dispatch_enter(window, cx);
        }
        self.ops.ack(seq, inserted, cx);
        inserted
    }

    /// Holds a deliver while no window is active. Gives the number under which
    /// it has to be polled.
    fn buffer_deliver(&mut self, seq: u64, text: String, submit: bool) -> (generation: usize)
        ensures
            final(self).progress() == buffered(old(self).progress(), seq, text@, submit),
            generation == final(self)@.generation,
    {
        self.advance();
        let generation = self.generation;
        self.pending_deliver = Some(PendingDeliver { seq, generation, text, submit, waited: 0 });
        generation
    }

    /// Looks for a window for the deliver that was buffered under a number,
    /// to be called once every [`DELIVER_POLL_INTERVAL`]. True where there is
    /// nothing more to poll for.
    pub fn poll_deliver(&mut self, generation: usize, cx: &mut O::Context) -> (done: bool)
        ensures
            exists|answers: Answers| #[trigger]
                polled(old(self).progress(), generation, answers) == final(self).progress(),
            done == !waits(final(self)@, generation),
    {
        let ghost start = self.progress();
        let ghost nothing = Answers { active: None, accepted: false, inserted: false };
        let current = match &self.pending_deliver {
            Some(pending) => pending.generation == generation,
            None => false,
        };
        if !current {
            assert(self.progress() == polled(start, generation, nothing));
            return true;
        }
        let pending = match self.pending_deliver.take() {
            Some(pending) => pending,
            None => {
                return true;
            },
        };
        proof {
            use_type_invariant(&pending);
        }
        assert(self.progress() == awaiting(start, None));
        match self.ops.active_window(cx) {
            Some(window) => {
                let inserted = self.perform_deliver(
                    window,
                    pending.seq,
                    pending.text.as_str(),
                    pending.submit,
                    cx,
                );
                proof {
                    let answers = Answers { active: Some(window), accepted: false, inserted };
                    assert(self.progress() == polled(start, generation, answers));
                }
                true
            },
            None => {
                let waited = pending.waited + DELIVER_POLL_INTERVAL;
                if waited >= DELIVER_DEADLINE {
                    self.ops.ack(pending.seq, false, cx);
                    assert(self.progress() == polled(start, generation, nothing));
                    true
                } else {
                    self.pending_deliver = Some(
                        PendingDeliver {
                            seq: pending.seq,
                            generation: pending.generation,
                            text: pending.text,
                            submit: pending.submit,
                            waited,
                        },
                    );
                    assert(self.progress() == polled(start, generation, nothing));
                    false
                }
            },
        }
    }

    /// A newer event supersedes a buffered deliver: it is nacked at once, so
    /// that the daemon does not have to wait for its own deadline.
    fn nack_pending_deliver(&mut self, cx: &mut O::Context)
        ensures
            final(self).progress() == nacked(old(self).progress()),
    {
        self.advance();
        if let Some(pending) = self.pending_deliver.take() {
            self.ops.ack(pending.seq, false, cx);
        }
    }
}

// --- Laws ---

/// What can happen to a controller.
pub enum Input {
    Event(ReceivedEventView, Answers),
    Poll(usize, Answers),
    Reset,
}

/// What an input does.
pub open spec fn stepped(progress: Progress, input: Input) -> Progress {
    match input {
        Input::Event(received, answers) => handled(progress, received, answers),
        Input::Poll(generation, answers) => polled(progress, generation, answers),
        Input::Reset => reset(progress),
    }
}

/// The windows that were marked and whose mark was not removed since.
pub open spec fn open_marks(calls: Seq<Call>) -> Set<WindowId>
    decreases calls.len(),
{
    if calls.len() == 0 {
        Set::empty()
    } else {
        let before = open_marks(calls.drop_last());
        match calls.last() {
            Call::SetMarked { window, accepted: true, .. } => before.insert(window),
            Call::ClearMarked { window } => before.remove(window),
            _ => before,
        }
    }
}

/// The window that the controller remembers.
pub open spec fn remembered(state: DictationView) -> Set<WindowId> {
    match state.marked {
        Some(window) => set![window],
        None => Set::empty(),
    }
}

/// The controller remembers every mark.
pub open spec fn marks_tracked(progress: Progress) -> bool {
    open_marks(progress.calls) == remembered(progress.state)
}

proof fn lemma_open_marks_called(progress: Progress, call: Call)
    ensures
        open_marks(called(progress, call).calls) == match call {
            Call::SetMarked { window, accepted: true, .. } => open_marks(progress.calls).insert(
                window,
            ),
            Call::ClearMarked { window } => open_marks(progress.calls).remove(window),
            _ => open_marks(progress.calls),
        },
{
    let calls = called(progress, call).calls;
    assert(calls.drop_last() =~= progress.calls);
}

proof fn lemma_unmarked(progress: Progress)
    requires
        marks_tracked(progress),
    ensures
        marks_tracked(unmarked(progress)),
        unmarked(progress).state.marked is None,
{
    if let Some(window) = progress.state.marked {
        lemma_open_marks_called(tracking(progress, None), Call::ClearMarked { window });
        assert(set![window].remove(window) =~= Set::<WindowId>::empty());
    }
}

proof fn lemma_marked(
    progress: Progress,
    text: Seq<char>,
    active: Option<WindowId>,
    accepted: bool,
)
    requires
        marks_tracked(progress),
    ensures
        marks_tracked(marked(progress, text, active, accepted)),
{
    let asked = called(progress, Call::Active { window: active });
    lemma_open_marks_called(progress, Call::Active { window: active });
    lemma_unmarked(asked);
    let clean = retargeted(asked, active);
    if let Some(window) = active {
        let call = Call::SetMarked { window, text, accepted };
        lemma_open_marks_called(clean, call);
        let set = called(clean, call);
        if accepted {
            assert(remembered(clean.state).insert(window) =~= set![window]);
        } else {
            lemma_unmarked(set);
        }
    }
}

proof fn lemma_performed_marks(
    progress: Progress,
    window: WindowId,
    seq: u64,
    text: Seq<char>,
    submit: bool,
    inserted: bool,
)
    ensures
        open_marks(performed(progress, window, seq, text, submit, inserted).calls) == open_marks(
            progress.calls,
        ),
{
    let typed = called(progress, Call::Insert { window, text, inserted });
    lemma_open_marks_called(progress, Call::Insert { window, text, inserted });
    lemma_open_marks_called(typed, Call::Enter { window });
    let entered = if inserted && submit {
        called(typed, Call::Enter { window })
    } else {
        typed
    };
    lemma_open_marks_called(entered, Call::Ack { seq, ok: inserted });
}

proof fn lemma_nacked_marks(progress: Progress)
    ensures
        open_marks(nacked(progress).calls) == open_marks(progress.calls),
{
    if let Some(pending) = progress.state.pending {
        lemma_open_marks_called(progress, Call::Ack { seq: pending.seq, ok: false });
    }
}

/// Marked text is never orphaned: at any time the window whose mark is open is
/// the one that the controller remembers, and there is no other.
pub proof fn lemma_marks_tracked(progress: Progress, input: Input)
    requires
        marks_tracked(progress),
    ensures
        marks_tracked(stepped(progress, input)),
{
    match input {
        Input::Event(received, answers) => {
            lemma_nacked_marks(progress);
            match received.event {
                FrontendEventView::RecordingStarted => {
                    lemma_marked(
                        in_phase(nacked(progress), DictationPhase::Recording),
                        Seq::empty(),
                        answers.active,
                        answers.accepted,
                    );
                },
                FrontendEventView::Partial { text } => {
                    lemma_marked(
                        in_phase(progress, DictationPhase::Recording),
                        text,
                        answers.active,
                        answers.accepted,
                    );
                },
                FrontendEventView::AwaitingConfirm { text } => {
                    lemma_marked(
                        in_phase(progress, DictationPhase::AwaitingConfirm),
                        text,
                        answers.active,
                        answers.accepted,
                    );
                },
                FrontendEventView::Deliver { text, submit } => {
                    let idle = in_phase(nacked(progress), DictationPhase::Idle);
                    lemma_unmarked(idle);
                    let clean = unmarked(idle);
                    lemma_open_marks_called(clean, Call::Active { window: answers.active });
                    let ready = called(clean, Call::Active { window: answers.active });
                    if let Some(window) = answers.active {
                        lemma_performed_marks(
                            ready,
                            window,
                            received.seq,
                            text,
                            submit,
                            answers.inserted,
                        );
                    }
                },
                FrontendEventView::Cancelled | FrontendEventView::Refused => {
                    lemma_unmarked(in_phase(nacked(progress), DictationPhase::Idle));
                },
                FrontendEventView::Unknown => {},
            }
        },
        Input::Poll(generation, answers) => {
            if let Some(pending) = progress.state.pending {
                if pending.generation == generation {
                    let asked = called(progress, Call::Active { window: answers.active });
                    lemma_open_marks_called(progress, Call::Active { window: answers.active });
                    lemma_open_marks_called(
                        awaiting(asked, None),
                        Call::Ack { seq: pending.seq, ok: false },
                    );
                    if let Some(window) = answers.active {
                        lemma_performed_marks(
                            awaiting(asked, None),
                            window,
                            pending.seq,
                            pending.text,
                            pending.submit,
                            answers.inserted,
                        );
                    }
                }
            }
        },
        Input::Reset => {
            let dropped = Progress {
                state: DictationView {
                    pending: None,
                    generation: next_generation(progress.state.generation),
                    ..progress.state
                },
                ..progress
            };
            lemma_unmarked(dropped);
        },
    }
}

/// The calls that mark text: the mark of another window is removed before any
/// text is set, the text is set once, in the active window, and a mark that the
/// window had is removed where it does not take the text.
pub open spec fn marking_calls(
    old_mark: Option<WindowId>,
    text: Seq<char>,
    active: Option<WindowId>,
    accepted: bool,
) -> Seq<Call> {
    seq![Call::Active { window: active }] + match old_mark {
        Some(window) if active != Some(window) => seq![Call::ClearMarked { window }],
        _ => seq![],
    } + match active {
        Some(window) => seq![Call::SetMarked { window, text, accepted }] + if !accepted && old_mark
            == Some(window) {
            seq![Call::ClearMarked { window }]
        } else {
            seq![]
        },
        None => seq![],
    }
}

/// To mark text makes these calls and no others. Behind it the controller
/// remembers the active window where that took the text, and no window
/// otherwise; the rest of the state is as it was.
pub proof fn lemma_marking(
    progress: Progress,
    text: Seq<char>,
    active: Option<WindowId>,
    accepted: bool,
)
    ensures
        ({
            let next = marked(progress, text, active, accepted);
            &&& next.calls == progress.calls + marking_calls(
                progress.state.marked,
                text,
                active,
                accepted,
            )
            &&& next.state == (DictationView {
                marked: if accepted {
                    active
                } else {
                    None
                },
                ..progress.state
            })
        }),
{
    assert(marked(progress, text, active, accepted).calls =~= progress.calls + marking_calls(
        progress.state.marked,
        text,
        active,
        accepted,
    ));
}

/// The events that end a dictation.
pub open spec fn ends_dictation(event: FrontendEventView) -> bool {
    event is Deliver || event is Cancelled || event is Refused
}

/// The end of a dictation and the loss of the connection leave no marked text,
/// and no dictation in flight.
pub proof fn lemma_end_leaves_no_mark(progress: Progress, input: Input)
    requires
        marks_tracked(progress),
        input is Reset || (input matches Input::Event(received, _) && ends_dictation(
            received.event,
        )),
    ensures
        open_marks(stepped(progress, input).calls) == Set::<WindowId>::empty(),
        stepped(progress, input).state.phase is Idle,
{
    lemma_marks_tracked(progress, input);
}

/// The delivers that were acked, in the order of the acks.
pub open spec fn answered(calls: Seq<Call>) -> Seq<u64>
    decreases calls.len(),
{
    if calls.len() == 0 {
        seq![]
    } else {
        let before = answered(calls.drop_last());
        match calls.last() {
            Call::Ack { seq, .. } => before.push(seq),
            _ => before,
        }
    }
}

/// The deliver that has not been acked yet.
pub open spec fn outstanding(state: DictationView) -> Seq<u64> {
    match state.pending {
        Some(pending) => seq![pending.seq],
        None => seq![],
    }
}

/// The deliver that an input brings.
pub open spec fn delivers(input: Input) -> Seq<u64> {
    match input {
        Input::Event(received, _) => if received.event is Deliver {
            seq![received.seq]
        } else {
            seq![]
        },
        _ => seq![],
    }
}

proof fn lemma_answered_called(progress: Progress, call: Call)
    ensures
        answered(called(progress, call).calls) == match call {
            Call::Ack { seq, .. } => answered(progress.calls).push(seq),
            _ => answered(progress.calls),
        },
{
    let calls = called(progress, call).calls;
    assert(calls.drop_last() =~= progress.calls);
}

proof fn lemma_answered_unmarked(progress: Progress)
    ensures
        answered(unmarked(progress).calls) == answered(progress.calls),
{
    if let Some(window) = progress.state.marked {
        lemma_answered_called(progress, Call::ClearMarked { window });
    }
}

proof fn lemma_answered_marked(
    progress: Progress,
    text: Seq<char>,
    active: Option<WindowId>,
    accepted: bool,
)
    ensures
        answered(marked(progress, text, active, accepted).calls) == answered(progress.calls),
{
    let asked = called(progress, Call::Active { window: active });
    lemma_answered_called(progress, Call::Active { window: active });
    lemma_answered_unmarked(asked);
    let clean = retargeted(asked, active);
    if let Some(window) = active {
        let call = Call::SetMarked { window, text, accepted };
        lemma_answered_called(clean, call);
        lemma_answered_unmarked(called(clean, call));
    }
}

proof fn lemma_answered_performed(
    progress: Progress,
    window: WindowId,
    seq: u64,
    text: Seq<char>,
    submit: bool,
    inserted: bool,
)
    ensures
        answered(performed(progress, window, seq, text, submit, inserted).calls) == answered(
            progress.calls,
        ).push(seq),
{
    let typed = called(progress, Call::Insert { window, text, inserted });
    lemma_answered_called(progress, Call::Insert { window, text, inserted });
    lemma_answered_called(typed, Call::Enter { window });
    let entered = if inserted && submit {
        called(typed, Call::Enter { window })
    } else {
        typed
    };
    lemma_answered_called(entered, Call::Ack { seq, ok: inserted });
}

proof fn lemma_answered_nacked(progress: Progress)
    ensures
        answered(nacked(progress).calls) == answered(progress.calls) + outstanding(progress.state),
        outstanding(nacked(progress).state) == Seq::<u64>::empty(),
{
    if let Some(pending) = progress.state.pending {
        lemma_answered_called(progress, Call::Ack { seq: pending.seq, ok: false });
        assert(answered(progress.calls).push(pending.seq) =~= answered(progress.calls) + seq![
            pending.seq,
        ]);
    } else {
        assert(answered(progress.calls) + Seq::<u64>::empty() =~= answered(progress.calls));
    }
}

/// Every deliver is answered exactly once, in the order of the delivers: those
/// that were acked, with the one that waits behind them, grow by the deliver
/// that comes in and by nothing else.
pub proof fn lemma_delivers_are_answered(progress: Progress, input: Input)
    requires
        !(input is Reset),
    ensures
        ({
            let next = stepped(progress, input);
            answered(next.calls) + outstanding(next.state) == answered(progress.calls)
                + outstanding(progress.state) + delivers(input)
        }),
{
    let next = stepped(progress, input);
    match input {
        Input::Event(received, answers) => {
            lemma_answered_nacked(progress);
            match received.event {
                FrontendEventView::RecordingStarted => {
                    lemma_answered_marked(
                        in_phase(nacked(progress), DictationPhase::Recording),
                        Seq::empty(),
                        answers.active,
                        answers.accepted,
                    );
                },
                FrontendEventView::Partial { text } => {
                    lemma_answered_marked(
                        in_phase(progress, DictationPhase::Recording),
                        text,
                        answers.active,
                        answers.accepted,
                    );
                },
                FrontendEventView::AwaitingConfirm { text } => {
                    lemma_answered_marked(
                        in_phase(progress, DictationPhase::AwaitingConfirm),
                        text,
                        answers.active,
                        answers.accepted,
                    );
                },
                FrontendEventView::Deliver { text, submit } => {
                    let idle = in_phase(nacked(progress), DictationPhase::Idle);
                    lemma_answered_unmarked(idle);
                    let clean = unmarked(idle);
                    lemma_answered_called(clean, Call::Active { window: answers.active });
                    let ready = called(clean, Call::Active { window: answers.active });
                    if let Some(window) = answers.active {
                        lemma_answered_performed(
                            ready,
                            window,
                            received.seq,
                            text,
                            submit,
                            answers.inserted,
                        );
                    }
                },
                FrontendEventView::Cancelled | FrontendEventView::Refused => {
                    lemma_answered_unmarked(in_phase(nacked(progress), DictationPhase::Idle));
                },
                FrontendEventView::Unknown => {},
            }
        },
        Input::Poll(generation, answers) => {
            if let Some(pending) = progress.state.pending {
                if pending.generation == generation {
                    let asked = called(progress, Call::Active { window: answers.active });
                    lemma_answered_called(progress, Call::Active { window: answers.active });
                    lemma_answered_called(
                        awaiting(asked, None),
                        Call::Ack { seq: pending.seq, ok: false },
                    );
                    if let Some(window) = answers.active {
                        lemma_answered_performed(
                            awaiting(asked, None),
                            window,
                            pending.seq,
                            pending.text,
                            pending.submit,
                            answers.inserted,
                        );
                    }
                }
            }
        },
        Input::Reset => {},
    }
    assert(answered(next.calls) + outstanding(next.state) =~= answered(progress.calls)
        + outstanding(progress.state) + delivers(input));
}

/// The loss of the connection sends no ack, and leaves no deliver waiting.
pub proof fn lemma_reset_acks_nothing(progress: Progress)
    ensures
        answered(reset(progress).calls) == answered(progress.calls),
        outstanding(reset(progress).state) == Seq::<u64>::empty(),
{
    let dropped = Progress {
        state: DictationView {
            pending: None,
            generation: next_generation(progress.state.generation),
            ..progress.state
        },
        ..progress
    };
    lemma_answered_unmarked(dropped);
}

/// What inputs lead to, one after the other.
pub open spec fn ran(progress: Progress, inputs: Seq<Input>) -> Progress
    decreases inputs.len(),
{
    if inputs.len() == 0 {
        progress
    } else {
        stepped(ran(progress, inputs.drop_last()), inputs.last())
    }
}

/// The delivers that inputs bring.
pub open spec fn all_delivers(inputs: Seq<Input>) -> Seq<u64>
    decreases inputs.len(),
{
    if inputs.len() == 0 {
        seq![]
    } else {
        all_delivers(inputs.drop_last()) + delivers(inputs.last())
    }
}

/// As long as the connection holds, the delivers that came in are those that
/// were acked and the one that waits: none is lost and none is acked twice.
pub proof fn lemma_no_deliver_is_lost(progress: Progress, inputs: Seq<Input>)
    requires
        progress.state.pending is None,
        forall|i: int| 0 <= i < inputs.len() ==> !(#[trigger] inputs[i] is Reset),
    ensures
        ({
            let end = ran(progress, inputs);
            answered(end.calls) + outstanding(end.state) == answered(progress.calls)
                + all_delivers(inputs)
        }),
    decreases inputs.len(),
{
    let end = ran(progress, inputs);
    if inputs.len() > 0 {
        let before = inputs.drop_last();
        assert forall|i: int| 0 <= i < before.len() implies !(#[trigger] before[i] is Reset) by {
            assert(before[i] == inputs[i]);
        }
        lemma_no_deliver_is_lost(progress, before);
        assert(!(inputs[inputs.len() - 1] is Reset));
        lemma_delivers_are_answered(ran(progress, before), inputs.last());
        assert(answered(progress.calls) + (all_delivers(before) + delivers(inputs.last()))
            =~= answered(progress.calls) + all_delivers(before) + delivers(inputs.last()));
    } else {
        assert(answered(progress.calls) + outstanding(progress.state) =~= answered(progress.calls)
            + all_delivers(inputs));
    }
}

/// An insertion, and whether the text went in.
pub struct Insertion {
    pub window: WindowId,
    pub text: Seq<char>,
    pub inserted: bool,
}

/// The answer to a deliver: its ack, and the insertions since the ack before.
pub struct Answer {
    pub seq: u64,
    pub ok: bool,
    pub insertions: Seq<Insertion>,
}

/// The insertions since the last ack.
pub open spec fn insertions(calls: Seq<Call>) -> Seq<Insertion>
    decreases calls.len(),
{
    if calls.len() == 0 {
        seq![]
    } else {
        let before = insertions(calls.drop_last());
        match calls.last() {
            Call::Insert { window, text, inserted } => before.push(
                Insertion { window, text, inserted },
            ),
            Call::Ack { .. } => seq![],
            _ => before,
        }
    }
}

/// The answers that were given, in their order.
pub open spec fn given(calls: Seq<Call>) -> Seq<Answer>
    decreases calls.len(),
{
    if calls.len() == 0 {
        seq![]
    } else {
        let before = calls.drop_last();
        match calls.last() {
            Call::Ack { seq, ok } => given(before).push(
                Answer { seq, ok, insertions: insertions(before) },
            ),
            _ => given(before),
        }
    }
}

/// An answer holds at most one insertion, and is `ok` exactly where there is
/// one and its text went in.
pub open spec fn truthful(answer: Answer) -> bool {
    &&& answer.insertions.len() <= 1
    &&& answer.ok <==> answer.insertions.len() == 1 && answer.insertions[0].inserted
}

/// Every answer is truthful, and no insertion is without its answer.
pub open spec fn all_truthful(calls: Seq<Call>) -> bool {
    &&& insertions(calls).len() == 0
    &&& forall|i: int| 0 <= i < given(calls).len() ==> truthful(#[trigger] given(calls)[i])
}

/// A deliver by its number and its text.
pub type Delivery = (u64, Seq<char>);

/// The deliver that an input brings.
pub open spec fn delivered(input: Input) -> Seq<Delivery> {
    match input {
        Input::Event(received, _) => match received.event {
            FrontendEventView::Deliver { text, .. } => seq![(received.seq, text)],
            _ => seq![],
        },
        _ => seq![],
    }
}

/// The delivers that inputs bring, in their order.
pub open spec fn all_delivered(inputs: Seq<Input>) -> Seq<Delivery>
    decreases inputs.len(),
{
    if inputs.len() == 0 {
        seq![]
    } else {
        all_delivered(inputs.drop_last()) + delivered(inputs.last())
    }
}

/// The deliver that waits for a window.
pub open spec fn waiting(state: DictationView) -> Seq<Delivery> {
    match state.pending {
        Some(pending) => seq![(pending.seq, pending.text)],
        None => seq![],
    }
}

/// An answer is to a deliver: it names its number, and what was inserted is its
/// text.
pub open spec fn answers_to(answer: Answer, delivery: Delivery) -> bool {
    &&& answer.seq == delivery.0
    &&& forall|i: int|
        0 <= i < answer.insertions.len() ==> (#[trigger] answer.insertions[i]).text == delivery.1
}

/// The answers are one to each of these delivers, in their order, but for the
/// last where it waits; all are truthful, and nothing else was inserted.
pub open spec fn accounted(progress: Progress, deliveries: Seq<Delivery>) -> bool {
    let answers = given(progress.calls);
    &&& all_truthful(progress.calls)
    &&& deliveries.len() == answers.len() + waiting(progress.state).len()
    &&& forall|i: int|
        0 <= i < answers.len() ==> answers_to(#[trigger] answers[i], deliveries[i])
    &&& progress.state.pending is Some ==> deliveries.last() == waiting(progress.state)[0]
}

proof fn lemma_given_called(progress: Progress, call: Call)
    ensures
        insertions(called(progress, call).calls) == match call {
            Call::Insert { window, text, inserted } => insertions(progress.calls).push(
                Insertion { window, text, inserted },
            ),
            Call::Ack { .. } => seq![],
            _ => insertions(progress.calls),
        },
        given(called(progress, call).calls) == match call {
            Call::Ack { seq, ok } => given(progress.calls).push(
                Answer { seq, ok, insertions: insertions(progress.calls) },
            ),
            _ => given(progress.calls),
        },
{
    let calls = called(progress, call).calls;
    assert(calls.drop_last() =~= progress.calls);
}

proof fn lemma_given_unmarked(progress: Progress)
    ensures
        insertions(unmarked(progress).calls) == insertions(progress.calls),
        given(unmarked(progress).calls) == given(progress.calls),
{
    if let Some(window) = progress.state.marked {
        lemma_given_called(progress, Call::ClearMarked { window });
    }
}

proof fn lemma_given_marked(
    progress: Progress,
    text: Seq<char>,
    active: Option<WindowId>,
    accepted: bool,
)
    ensures
        insertions(marked(progress, text, active, accepted).calls) == insertions(progress.calls),
        given(marked(progress, text, active, accepted).calls) == given(progress.calls),
{
    let asked = called(progress, Call::Active { window: active });
    lemma_given_called(progress, Call::Active { window: active });
    lemma_given_unmarked(asked);
    let clean = retargeted(asked, active);
    if let Some(window) = active {
        let call = Call::SetMarked { window, text, accepted };
        lemma_given_called(clean, call);
        lemma_given_unmarked(called(clean, call));
    }
}

/// What a deliver that is carried out is answered.
spec fn insertion_answer(
    window: WindowId,
    seq: u64,
    text: Seq<char>,
    inserted: bool,
) -> Answer {
    Answer { seq, ok: inserted, insertions: seq![Insertion { window, text, inserted }] }
}

proof fn lemma_given_performed(
    progress: Progress,
    window: WindowId,
    seq: u64,
    text: Seq<char>,
    submit: bool,
    inserted: bool,
)
    requires
        insertions(progress.calls).len() == 0,
    ensures
        insertions(performed(progress, window, seq, text, submit, inserted).calls).len() == 0,
        given(performed(progress, window, seq, text, submit, inserted).calls) == given(
            progress.calls,
        ).push(insertion_answer(window, seq, text, inserted)),
{
    let call = Call::Insert { window, text, inserted };
    let typed = called(progress, call);
    lemma_given_called(progress, call);
    lemma_given_called(typed, Call::Enter { window });
    let entered = if inserted && submit {
        called(typed, Call::Enter { window })
    } else {
        typed
    };
    lemma_given_called(entered, Call::Ack { seq, ok: inserted });
    assert(insertions(entered.calls) =~= seq![Insertion { window, text, inserted }]);
}

/// What the nack of a deliver is.
spec fn nack_answer(seq: u64) -> Answer {
    Answer { seq, ok: false, insertions: seq![] }
}

proof fn lemma_given_nacked(progress: Progress)
    requires
        insertions(progress.calls).len() == 0,
    ensures
        insertions(nacked(progress).calls).len() == 0,
        given(nacked(progress).calls) == match progress.state.pending {
            Some(pending) => given(progress.calls).push(nack_answer(pending.seq)),
            None => given(progress.calls),
        },
{
    assert(insertions(progress.calls) =~= seq![]);
    if let Some(pending) = progress.state.pending {
        lemma_given_called(progress, Call::Ack { seq: pending.seq, ok: false });
    }
}

/// The answers that an input gives: to the deliver that waits, where it is
/// settled, and to the one that comes in, where a window is active.
spec fn new_answers(progress: Progress, input: Input) -> Seq<Answer> {
    match input {
        Input::Event(received, answers) => {
            let nacks = match progress.state.pending {
                Some(pending) if received.event is RecordingStarted || ends_dictation(
                    received.event,
                ) => seq![nack_answer(pending.seq)],
                _ => seq![],
            };
            nacks + match (received.event, answers.active) {
                (FrontendEventView::Deliver { text, .. }, Some(window)) => seq![
                    insertion_answer(window, received.seq, text, answers.inserted),
                ],
                _ => seq![],
            }
        },
        Input::Poll(generation, answers) => match progress.state.pending {
            Some(pending) if pending.generation == generation => match answers.active {
                Some(window) => seq![
                    insertion_answer(window, pending.seq, pending.text, answers.inserted),
                ],
                None => if pending.waited + DELIVER_POLL_INTERVAL >= DELIVER_DEADLINE {
                    seq![nack_answer(pending.seq)]
                } else {
                    seq![]
                },
            },
            _ => seq![],
        },
        Input::Reset => seq![],
    }
}

proof fn lemma_given_stepped(progress: Progress, input: Input)
    requires
        insertions(progress.calls).len() == 0,
    ensures
        insertions(stepped(progress, input).calls).len() == 0,
        given(stepped(progress, input).calls) == given(progress.calls) + new_answers(
            progress,
            input,
        ),
{
    let next = stepped(progress, input);
    match input {
        Input::Event(received, answers) => {
            lemma_given_nacked(progress);
            match received.event {
                FrontendEventView::RecordingStarted => {
                    lemma_given_marked(
                        in_phase(nacked(progress), DictationPhase::Recording),
                        Seq::empty(),
                        answers.active,
                        answers.accepted,
                    );
                },
                FrontendEventView::Partial { text } => {
                    lemma_given_marked(
                        in_phase(progress, DictationPhase::Recording),
                        text,
                        answers.active,
                        answers.accepted,
                    );
                },
                FrontendEventView::AwaitingConfirm { text } => {
                    lemma_given_marked(
                        in_phase(progress, DictationPhase::AwaitingConfirm),
                        text,
                        answers.active,
                        answers.accepted,
                    );
                },
                FrontendEventView::Deliver { text, submit } => {
                    let idle = in_phase(nacked(progress), DictationPhase::Idle);
                    lemma_given_unmarked(idle);
                    let clean = unmarked(idle);
                    lemma_given_called(clean, Call::Active { window: answers.active });
                    let ready = called(clean, Call::Active { window: answers.active });
                    if let Some(window) = answers.active {
                        lemma_given_performed(
                            ready,
                            window,
                            received.seq,
                            text,
                            submit,
                            answers.inserted,
                        );
                    }
                },
                FrontendEventView::Cancelled | FrontendEventView::Refused => {
                    lemma_given_unmarked(in_phase(nacked(progress), DictationPhase::Idle));
                },
                FrontendEventView::Unknown => {},
            }
        },
        Input::Poll(generation, answers) => {
            if let Some(pending) = progress.state.pending {
                if pending.generation == generation {
                    let asked = called(progress, Call::Active { window: answers.active });
                    lemma_given_called(progress, Call::Active { window: answers.active });
                    assert(insertions(asked.calls) =~= seq![]);
                    lemma_given_called(
                        awaiting(asked, None),
                        Call::Ack { seq: pending.seq, ok: false },
                    );
                    if let Some(window) = answers.active {
                        lemma_given_performed(
                            awaiting(asked, None),
                            window,
                            pending.seq,
                            pending.text,
                            pending.submit,
                            answers.inserted,
                        );
                    }
                }
            }
        },
        Input::Reset => {
            let dropped = Progress {
                state: DictationView {
                    pending: None,
                    generation: next_generation(progress.state.generation),
                    ..progress.state
                },
                ..progress
            };
            lemma_given_unmarked(dropped);
        },
    }
    assert(given(next.calls) =~= given(progress.calls) + new_answers(progress, input));
}

/// An ack is `ok` if and only if the one insertion that it answers for put the
/// text in, whatever happens: the loss of the connection too.
pub proof fn lemma_acks_tell_of_insertions(progress: Progress, input: Input)
    requires
        all_truthful(progress.calls),
    ensures
        all_truthful(stepped(progress, input).calls),
{
    lemma_given_stepped(progress, input);
    let before = given(progress.calls);
    let new = new_answers(progress, input);
    let after = given(stepped(progress, input).calls);
    assert forall|i: int| 0 <= i < after.len() implies truthful(#[trigger] after[i]) by {
        if i < before.len() {
            assert(after[i] == before[i]);
        } else {
            assert(after[i] == new[i - before.len()]);
        }
    }
}

/// As long as the connection holds, an input keeps the account of delivers and
/// answers.
pub proof fn lemma_accounted(progress: Progress, input: Input, deliveries: Seq<Delivery>)
    requires
        accounted(progress, deliveries),
        !(input is Reset),
    ensures
        accounted(stepped(progress, input), deliveries + delivered(input)),
{
    lemma_given_stepped(progress, input);
    lemma_acks_tell_of_insertions(progress, input);
    let before = given(progress.calls);
    let new = new_answers(progress, input);
    let next = stepped(progress, input);
    let after = given(next.calls);
    let all = deliveries + delivered(input);
    assert forall|i: int| 0 <= i < after.len() implies answers_to(#[trigger] after[i], all[i]) by {
        if i < before.len() {
            assert(after[i] == before[i]);
            assert(all[i] == deliveries[i]);
        } else {
            assert(after[i] == new[i - before.len()]);
        }
    }
}

/// As long as the connection holds, each deliver is acked exactly once and no
/// other number is: the acks come in the order of the delivers, and only the
/// last deliver may still wait. A deliver's text is inserted at most once, and
/// nothing else is. The ack of a deliver is `ok` if and only if its insertion
/// put the text in.
pub proof fn lemma_each_deliver_is_answered_once(
    progress: Progress,
    inputs: Seq<Input>,
    deliveries: Seq<Delivery>,
)
    requires
        accounted(progress, deliveries),
        forall|i: int| 0 <= i < inputs.len() ==> !(#[trigger] inputs[i] is Reset),
    ensures
        accounted(ran(progress, inputs), deliveries + all_delivered(inputs)),
    decreases inputs.len(),
{
    if inputs.len() > 0 {
        let before = inputs.drop_last();
        assert forall|i: int| 0 <= i < before.len() implies !(#[trigger] before[i] is Reset) by {
            assert(before[i] == inputs[i]);
        }
        lemma_each_deliver_is_answered_once(progress, before, deliveries);
        assert(!(inputs[inputs.len() - 1] is Reset));
        let so_far = deliveries + all_delivered(before);
        lemma_accounted(ran(progress, before), inputs.last(), so_far);
        assert(so_far + delivered(inputs.last()) =~= deliveries + all_delivered(inputs));
    } else {
        assert(deliveries + all_delivered(inputs) =~= deliveries);
    }
}

/// Enter is pressed only right behind text that went in, and an ack says `ok`
/// only behind text that went in.
pub open spec fn honest_at(calls: Seq<Call>, i: int) -> bool {
    match calls[i] {
        Call::Enter { .. } => i >= 1 && calls[i - 1] is Insert && calls[i - 1]->inserted,
        Call::Ack { ok: true, .. } => {
            ||| i >= 1 && calls[i - 1] is Insert && calls[i - 1]->inserted
            ||| i >= 2 && calls[i - 1] is Enter && calls[i - 2] is Insert && calls[i - 2]->inserted
        },
        _ => true,
    }
}

/// All calls are honest.
pub open spec fn honest(calls: Seq<Call>) -> bool {
    forall|i: int| 0 <= i < calls.len() ==> #[trigger] honest_at(calls, i)
}

proof fn lemma_honest_called(progress: Progress, call: Call)
    requires
        honest(progress.calls),
        honest_at(called(progress, call).calls, progress.calls.len() as int),
    ensures
        honest(called(progress, call).calls),
{
    let calls = called(progress, call).calls;
    assert forall|i: int| 0 <= i < calls.len() implies #[trigger] honest_at(calls, i) by {
        if i < progress.calls.len() {
            assert(honest_at(progress.calls, i));
        }
    }
}

proof fn lemma_honest_unmarked(progress: Progress)
    requires
        honest(progress.calls),
    ensures
        honest(unmarked(progress).calls),
{
    if let Some(window) = progress.state.marked {
        lemma_honest_called(progress, Call::ClearMarked { window });
    }
}

proof fn lemma_honest_marked(
    progress: Progress,
    text: Seq<char>,
    active: Option<WindowId>,
    accepted: bool,
)
    requires
        honest(progress.calls),
    ensures
        honest(marked(progress, text, active, accepted).calls),
{
    let asked = called(progress, Call::Active { window: active });
    lemma_honest_called(progress, Call::Active { window: active });
    lemma_honest_unmarked(asked);
    let clean = retargeted(asked, active);
    if let Some(window) = active {
        let call = Call::SetMarked { window, text, accepted };
        lemma_honest_called(clean, call);
        lemma_honest_unmarked(called(clean, call));
    }
}

proof fn lemma_honest_performed(
    progress: Progress,
    window: WindowId,
    seq: u64,
    text: Seq<char>,
    submit: bool,
    inserted: bool,
)
    requires
        honest(progress.calls),
    ensures
        honest(performed(progress, window, seq, text, submit, inserted).calls),
{
    let typed = called(progress, Call::Insert { window, text, inserted });
    lemma_honest_called(progress, Call::Insert { window, text, inserted });
    if inserted && submit {
        lemma_honest_called(typed, Call::Enter { window });
        lemma_honest_called(called(typed, Call::Enter { window }), Call::Ack { seq, ok: inserted });
    } else {
        lemma_honest_called(typed, Call::Ack { seq, ok: inserted });
    }
}

/// The daemon is told of success only where the text went in, and Enter is
/// pressed only then.
pub proof fn lemma_acks_are_honest(progress: Progress, input: Input)
    requires
        honest(progress.calls),
    ensures
        honest(stepped(progress, input).calls),
{
    match input {
        Input::Event(received, answers) => {
            if let Some(pending) = progress.state.pending {
                lemma_honest_called(progress, Call::Ack { seq: pending.seq, ok: false });
            }
            assert(honest(nacked(progress).calls));
            match received.event {
                FrontendEventView::RecordingStarted => {
                    lemma_honest_marked(
                        in_phase(nacked(progress), DictationPhase::Recording),
                        Seq::empty(),
                        answers.active,
                        answers.accepted,
                    );
                },
                FrontendEventView::Partial { text } => {
                    lemma_honest_marked(
                        in_phase(progress, DictationPhase::Recording),
                        text,
                        answers.active,
                        answers.accepted,
                    );
                },
                FrontendEventView::AwaitingConfirm { text } => {
                    lemma_honest_marked(
                        in_phase(progress, DictationPhase::AwaitingConfirm),
                        text,
                        answers.active,
                        answers.accepted,
                    );
                },
                FrontendEventView::Deliver { text, submit } => {
                    let idle = in_phase(nacked(progress), DictationPhase::Idle);
                    lemma_honest_unmarked(idle);
                    let clean = unmarked(idle);
                    lemma_honest_called(clean, Call::Active { window: answers.active });
                    let ready = called(clean, Call::Active { window: answers.active });
                    if let Some(window) = answers.active {
                        lemma_honest_performed(
                            ready,
                            window,
                            received.seq,
                            text,
                            submit,
                            answers.inserted,
                        );
                    }
                },
                FrontendEventView::Cancelled | FrontendEventView::Refused => {
                    lemma_honest_unmarked(in_phase(nacked(progress), DictationPhase::Idle));
                },
                FrontendEventView::Unknown => {},
            }
        },
        Input::Poll(generation, answers) => {
            if let Some(pending) = progress.state.pending {
                if pending.generation == generation {
                    let asked = called(progress, Call::Active { window: answers.active });
                    lemma_honest_called(progress, Call::Active { window: answers.active });
                    lemma_honest_called(
                        awaiting(asked, None),
                        Call::Ack { seq: pending.seq, ok: false },
                    );
                    if let Some(window) = answers.active {
                        lemma_honest_performed(
                            awaiting(asked, None),
                            window,
                            pending.seq,
                            pending.text,
                            pending.submit,
                            answers.inserted,
                        );
                    }
                }
            }
        },
        Input::Reset => {
            let dropped = Progress {
                state: DictationView {
                    pending: None,
                    generation: next_generation(progress.state.generation),
                    ..progress.state
                },
                ..progress
            };
            lemma_honest_unmarked(dropped);
        },
    }
}

/// The deliver that waits was buffered under the current number, and its
/// deadline is ahead.
pub open spec fn well_formed(state: DictationView) -> bool {
    state.pending matches Some(pending) ==> pending.generation == state.generation && 0
        <= pending.waited < DELIVER_DEADLINE
}

/// Every input leaves the state well formed.
pub proof fn lemma_well_formed(progress: Progress, input: Input)
    requires
        well_formed(progress.state),
    ensures
        well_formed(stepped(progress, input).state),
{
}

/// Polls of one buffered deliver, one after the other.
pub open spec fn polls(progress: Progress, generation: usize, answers: Seq<Answers>) -> Progress
    decreases answers.len(),
{
    if answers.len() == 0 {
        progress
    } else {
        polled(polls(progress, generation, answers.drop_last()), generation, answers.last())
    }
}

proof fn lemma_polls(progress: Progress, generation: usize, answers: Seq<Answers>)
    requires
        waits(progress.state, generation),
        progress.state.pending->0.waited >= 0,
    ensures
        ({
            let start = progress.state.pending->0.waited;
            let end = polls(progress, generation, answers).state;
            end.pending is Some ==> {
                &&& waits(end, generation)
                &&& end.pending->0.waited == start + 25 * answers.len()
                &&& answers.len() > 0 ==> end.pending->0.waited < DELIVER_DEADLINE
            }
        }),
    decreases answers.len(),
{
    if answers.len() > 0 {
        lemma_polls(progress, generation, answers.drop_last());
    }
}

/// A buffered deliver is answered by the deadline, whatever the window
/// operations answer: polls that take that long leave it waiting no more.
pub proof fn lemma_deadline(progress: Progress, generation: usize, answers: Seq<Answers>)
    requires
        waits(progress.state, generation),
        progress.state.pending->0.waited >= 0,
        answers.len() * DELIVER_POLL_INTERVAL >= DELIVER_DEADLINE,
    ensures
        polls(progress, generation, answers).state.pending is None,
{
    lemma_polls(progress, generation, answers);
}

/// The deliver that waits, if any, is polled.
pub open spec fn settled(progress: Progress, answers: Seq<Answers>) -> Progress {
    match progress.state.pending {
        Some(pending) => polls(progress, pending.generation, answers),
        None => progress,
    }
}

proof fn lemma_ran_well_formed(progress: Progress, inputs: Seq<Input>)
    requires
        well_formed(progress.state),
    ensures
        well_formed(ran(progress, inputs).state),
    decreases inputs.len(),
{
    if inputs.len() > 0 {
        lemma_ran_well_formed(progress, inputs.drop_last());
    }
}

proof fn lemma_polls_accounted(
    progress: Progress,
    generation: usize,
    answers: Seq<Answers>,
    deliveries: Seq<Delivery>,
)
    requires
        accounted(progress, deliveries),
    ensures
        accounted(polls(progress, generation, answers), deliveries),
    decreases answers.len(),
{
    if answers.len() > 0 {
        let before = answers.drop_last();
        lemma_polls_accounted(progress, generation, before, deliveries);
        let input = Input::Poll(generation, answers.last());
        lemma_accounted(polls(progress, generation, before), input, deliveries);
        assert(deliveries + delivered(input) =~= deliveries);
    }
}

/// Whatever comes to a new controller while the connection holds, once the
/// deadline behind the last input has passed, every deliver has its one answer,
/// which is `ok` if and only if its one insertion put the text in.
pub proof fn lemma_all_delivers_are_answered_in_time(inputs: Seq<Input>, answers: Seq<Answers>)
    requires
        forall|i: int| 0 <= i < inputs.len() ==> !(#[trigger] inputs[i] is Reset),
        answers.len() * DELIVER_POLL_INTERVAL >= DELIVER_DEADLINE,
    ensures
        ({
            let end = settled(ran(fresh(), inputs), answers);
            &&& accounted(end, all_delivered(inputs))
            &&& given(end.calls).len() == all_delivered(inputs).len()
        }),
{
    let progress = ran(fresh(), inputs);
    lemma_each_deliver_is_answered_once(fresh(), inputs, seq![]);
    assert(Seq::<Delivery>::empty() + all_delivered(inputs) =~= all_delivered(inputs));
    lemma_ran_well_formed(fresh(), inputs);
    if let Some(pending) = progress.state.pending {
        lemma_deadline(progress, pending.generation, answers);
        lemma_polls_accounted(progress, pending.generation, answers, all_delivered(inputs));
    }
}

/// The poll of a deliver that an event superseded does nothing any more.
pub proof fn lemma_superseded_poll(
    progress: Progress,
    generation: usize,
    received: ReceivedEventView,
    answers: Answers,
    later: Answers,
)
    requires
        well_formed(progress.state),
        waits(progress.state, generation),
        received.event is RecordingStarted || ends_dictation(received.event),
    ensures
        ({
            let next = handled(progress, received, answers);
            polled(next, generation, later) == next
        }),
{
}

/// An event that this build does not know leaves the dictation as it is.
pub proof fn lemma_unknown_event_changes_nothing(
    progress: Progress,
    seq: u64,
    answers: Answers,
)
    ensures
        handled(
            progress,
            ReceivedEventView { seq, event: FrontendEventView::Unknown },
            answers,
        ) == progress,
{
}

// --- What each input achieves ---

/// A deliver ends the dictation whatever came before: a deliver that waits is
/// nacked first, then our mark is removed. Where a window is active, the text is
/// inserted there; Enter is pressed in that window, once and right behind the
/// insertion, exactly where submitting was asked for and the text went in; and
/// the ack comes last and tells whether the text went in. Where no window is
/// active, the deliver waits as it came.
pub proof fn lemma_deliver(
    progress: Progress,
    seq: u64,
    text: Seq<char>,
    submit: bool,
    answers: Answers,
)
    ensures
        ({
            let event = FrontendEventView::Deliver { text, submit };
            let next = handled(progress, ReceivedEventView { seq, event }, answers);
            let nack = match progress.state.pending {
                Some(pending) => seq![Call::Ack { seq: pending.seq, ok: false }],
                None => seq![],
            };
            let clear = match progress.state.marked {
                Some(window) => seq![Call::ClearMarked { window }],
                None => seq![],
            };
            let ready = progress.calls + nack + clear;
            &&& next.state.phase is Idle
            &&& next.state.marked is None
            &&& match answers.active {
                Some(window) => {
                    let inserted = answers.inserted;
                    let typed = ready.push(Call::Active { window: Some(window) }).push(
                        Call::Insert { window, text, inserted },
                    );
                    &&& next.state.pending is None
                    &&& submit && inserted ==> next.calls == typed.push(
                        Call::Enter { window },
                    ).push(Call::Ack { seq, ok: true })
                    &&& !(submit && inserted) ==> next.calls == typed.push(
                        Call::Ack { seq, ok: inserted },
                    )
                },
                None => {
                    &&& next.calls == ready.push(Call::Active { window: None })
                    &&& next.state.pending matches Some(pending)
                    &&& pending.seq == seq
                    &&& pending.text == text
                    &&& pending.submit == submit
                    &&& pending.waited == 0
                    &&& pending.generation == next.state.generation
                    &&& pending.generation != progress.state.generation
                },
            }
        }),
{
    let event = FrontendEventView::Deliver { text, submit };
    let next = handled(progress, ReceivedEventView { seq, event }, answers);
    let nack = match progress.state.pending {
        Some(pending) => seq![Call::Ack { seq: pending.seq, ok: false }],
        None => seq![],
    };
    let clear = match progress.state.marked {
        Some(window) => seq![Call::ClearMarked { window }],
        None => seq![],
    };
    let ready = progress.calls + nack + clear;
    assert(unmarked(in_phase(nacked(progress), DictationPhase::Idle)).calls =~= ready);
}

/// The poll of a deliver that waits: where a window is active by now, the
/// deliver is carried out there as it came, with Enter exactly where it asked
/// for submitting and its text went in, and acked; where none is, it waits for
/// 25 ms more, and is nacked once it has waited for 150 ms. The poll of any
/// other deliver does nothing. Polling goes on exactly while that deliver waits.
pub proof fn lemma_poll(progress: Progress, generation: usize, answers: Answers)
    ensures
        waits(polled(progress, generation, answers).state, generation) <==> {
            &&& progress.state.pending matches Some(pending)
            &&& pending.generation == generation
            &&& answers.active is None
            &&& pending.waited + 25 < 150
        },
        ({
            let next = polled(progress, generation, answers);
            match progress.state.pending {
                Some(pending) if pending.generation == generation => {
                    let asked = progress.calls.push(Call::Active { window: answers.active });
                    let inserted = answers.inserted;
                    &&& next.state.phase == progress.state.phase
                    &&& next.state.marked == progress.state.marked
                    &&& next.state.generation == progress.state.generation
                    &&& match answers.active {
                        Some(window) => {
                            let typed = asked.push(
                                Call::Insert { window, text: pending.text, inserted },
                            );
                            &&& next.state.pending is None
                            &&& pending.submit && inserted ==> next.calls == typed.push(
                                Call::Enter { window },
                            ).push(Call::Ack { seq: pending.seq, ok: true })
                            &&& !(pending.submit && inserted) ==> next.calls == typed.push(
                                Call::Ack { seq: pending.seq, ok: inserted },
                            )
                        },
                        None => if pending.waited + 25 >= 150 {
                            &&& next.state.pending is None
                            &&& next.calls == asked.push(Call::Ack { seq: pending.seq, ok: false })
                        } else {
                            &&& next.calls == asked
                            &&& next.state.pending matches Some(later)
                            &&& later.seq == pending.seq
                            &&& later.text == pending.text
                            &&& later.submit == pending.submit
                            &&& later.generation == generation
                            &&& later.waited == pending.waited + 25
                        },
                    }
                },
                _ => next == progress,
            }
        }),
{
}

/// What is being dictated is shown as it is, in the active window alone. The
/// start of a recording shows an empty text and nacks a deliver that waits;
/// partials and the text that waits to be confirmed leave such a deliver alone.
/// Our mark in another window is removed before the text is set; a window that
/// does not take the text loses the mark it had.
pub proof fn lemma_dictated_text_is_shown(
    progress: Progress,
    received: ReceivedEventView,
    answers: Answers,
)
    requires
        received.event is RecordingStarted || received.event is Partial
            || received.event is AwaitingConfirm,
    ensures
        ({
            let next = handled(progress, received, answers);
            let starts = received.event is RecordingStarted;
            let text = match received.event {
                FrontendEventView::Partial { text } => text,
                FrontendEventView::AwaitingConfirm { text } => text,
                _ => Seq::empty(),
            };
            let nack = match progress.state.pending {
                Some(pending) if starts => seq![Call::Ack { seq: pending.seq, ok: false }],
                _ => seq![],
            };
            let asked = progress.calls + nack + seq![Call::Active { window: answers.active }];
            let marked = progress.state.marked;
            &&& next.state.phase == if received.event is AwaitingConfirm {
                DictationPhase::AwaitingConfirm
            } else {
                DictationPhase::Recording
            }
            &&& starts ==> next.state.pending is None
            &&& !starts ==> next.state.pending == progress.state.pending
            &&& !starts ==> next.state.generation == progress.state.generation
            &&& match (answers.active, marked) {
                (None, None) => next.calls == asked && next.state.marked is None,
                (None, Some(old_window)) => {
                    &&& next.calls == asked.push(Call::ClearMarked { window: old_window })
                    &&& next.state.marked is None
                },
                (Some(window), _) => {
                    let clean = match marked {
                        Some(old_window) if old_window != window => asked.push(
                            Call::ClearMarked { window: old_window },
                        ),
                        _ => asked,
                    };
                    let set = clean.push(
                        Call::SetMarked { window, text, accepted: answers.accepted },
                    );
                    &&& answers.accepted ==> next.calls == set && next.state.marked == Some(window)
                    &&& !answers.accepted ==> next.state.marked is None && next.calls
                        == if marked == Some(window) {
                        set.push(Call::ClearMarked { window })
                    } else {
                        set
                    }
                },
            }
        }),
{
    let next = handled(progress, received, answers);
    let nack = match progress.state.pending {
        Some(pending) if received.event is RecordingStarted => seq![
            Call::Ack { seq: pending.seq, ok: false },
        ],
        _ => seq![],
    };
    assert(progress.calls + nack + seq![Call::Active { window: answers.active }] =~= (
    progress.calls + nack).push(Call::Active { window: answers.active }));
    assert(progress.calls + Seq::<Call>::empty() =~= progress.calls);
}

/// A cancelled or refused dictation is over: a deliver that waits is nacked, our
/// mark is removed, and nothing is inserted.
pub proof fn lemma_dictation_is_called_off(
    progress: Progress,
    received: ReceivedEventView,
    answers: Answers,
)
    requires
        received.event is Cancelled || received.event is Refused,
    ensures
        ({
            let next = handled(progress, received, answers);
            let nack = match progress.state.pending {
                Some(pending) => seq![Call::Ack { seq: pending.seq, ok: false }],
                None => seq![],
            };
            let clear = match progress.state.marked {
                Some(window) => seq![Call::ClearMarked { window }],
                None => seq![],
            };
            &&& next.calls == progress.calls + nack + clear
            &&& next.state.phase is Idle
            &&& next.state.marked is None
            &&& next.state.pending is None
        }),
{
    let next = handled(progress, received, answers);
    let nack = match progress.state.pending {
        Some(pending) => seq![Call::Ack { seq: pending.seq, ok: false }],
        None => seq![],
    };
    let clear = match progress.state.marked {
        Some(window) => seq![Call::ClearMarked { window }],
        None => seq![],
    };
    assert(next.calls =~= progress.calls + nack + clear);
}

/// The loss of the connection removes our mark and calls nothing else; what
/// waits is dropped, and the poll of it does nothing any more.
pub proof fn lemma_reset(progress: Progress, generation: usize, answers: Answers)
    ensures
        ({
            let next = reset(progress);
            &&& next.calls == match progress.state.marked {
                Some(window) => progress.calls.push(Call::ClearMarked { window }),
                None => progress.calls,
            }
            &&& next.state.phase is Idle
            &&& next.state.marked is None
            &&& next.state.pending is None
            &&& next.state.generation != progress.state.generation
            &&& polled(next, generation, answers) == next
        }),
{
}

/// The caller has to render anew exactly where the phase changed, and to poll
/// exactly where a deliver came in that now waits.
pub proof fn lemma_followup(progress: Progress, received: ReceivedEventView, answers: Answers)
    requires
        well_formed(progress.state),
    ensures
        ({
            let next = handled(progress, received, answers);
            let todo = followup(progress.state, next.state, received.event);
            &&& todo.notify <==> progress.state.phase != next.state.phase
            &&& todo.poll is Some <==> received.event is Deliver && answers.active is None
            &&& todo.poll matches Some(generation) ==> waits(next.state, generation)
        }),
{
}

// --- Submitting ---

/// What was typed since the last ack: insertions and Enter.
pub open spec fn typed(calls: Seq<Call>) -> Seq<Call>
    decreases calls.len(),
{
    if calls.len() == 0 {
        seq![]
    } else {
        let before = typed(calls.drop_last());
        match calls.last() {
            Call::Insert { .. } | Call::Enter { .. } => before.push(calls.last()),
            Call::Ack { .. } => seq![],
            _ => before,
        }
    }
}

/// What was typed for an ack, and the ack.
pub struct Outcome {
    pub seq: u64,
    pub ok: bool,
    pub typed: Seq<Call>,
}

/// The outcomes of delivers, in the order of the acks.
pub open spec fn outcomes(calls: Seq<Call>) -> Seq<Outcome>
    decreases calls.len(),
{
    if calls.len() == 0 {
        seq![]
    } else {
        let before = calls.drop_last();
        match calls.last() {
            Call::Ack { seq, ok } => outcomes(before).push(
                Outcome { seq, ok, typed: typed(before) },
            ),
            _ => outcomes(before),
        }
    }
}

/// A deliver: its number, its text, and whether it asks for submitting.
pub type Ordered = (u64, Seq<char>, bool);

/// An outcome is what a deliver asks for: either nothing was typed and it was
/// nacked; or its text was inserted once, into one window, Enter was pressed in
/// that window right behind, exactly where it asks for submitting and the text
/// went in, and the ack tells whether the text went in.
pub open spec fn carries_out(outcome: Outcome, ordered: Ordered) -> bool {
    &&& outcome.seq == ordered.0
    &&& if outcome.typed.len() == 0 {
        !outcome.ok
    } else {
        &&& outcome.typed[0] matches Call::Insert { window, text, inserted }
        &&& text == ordered.1
        &&& outcome.ok == inserted
        &&& if inserted && ordered.2 {
            outcome.typed.len() == 2 && outcome.typed[1] == (Call::Enter { window })
        } else {
            outcome.typed.len() == 1
        }
    }
}

/// The deliver that an input brings.
pub open spec fn ordered(input: Input) -> Seq<Ordered> {
    match input {
        Input::Event(received, _) => match received.event {
            FrontendEventView::Deliver { text, submit } => seq![(received.seq, text, submit)],
            _ => seq![],
        },
        _ => seq![],
    }
}

/// The delivers that inputs bring, in their order.
pub open spec fn all_ordered(inputs: Seq<Input>) -> Seq<Ordered>
    decreases inputs.len(),
{
    if inputs.len() == 0 {
        seq![]
    } else {
        all_ordered(inputs.drop_last()) + ordered(inputs.last())
    }
}

/// Each of these delivers has its outcome, in their order, but for the last
/// where it waits; and nothing was typed that belongs to none.
pub open spec fn all_carried_out(progress: Progress, orders: Seq<Ordered>) -> bool {
    let ends = outcomes(progress.calls);
    &&& typed(progress.calls).len() == 0
    &&& orders.len() == ends.len() + if progress.state.pending is Some {
        1int
    } else {
        0
    }
    &&& forall|i: int| 0 <= i < ends.len() ==> carries_out(#[trigger] ends[i], orders[i])
    &&& progress.state.pending matches Some(pending) ==> orders.last() == (
        pending.seq,
        pending.text,
        pending.submit,
    )
}

proof fn lemma_typed_push(calls: Seq<Call>, call: Call)
    ensures
        typed(calls.push(call)) == match call {
            Call::Insert { .. } | Call::Enter { .. } => typed(calls).push(call),
            Call::Ack { .. } => seq![],
            _ => typed(calls),
        },
        outcomes(calls.push(call)) == match call {
            Call::Ack { seq, ok } => outcomes(calls).push(
                Outcome { seq, ok, typed: typed(calls) },
            ),
            _ => outcomes(calls),
        },
{
    assert(calls.push(call).drop_last() =~= calls);
}

/// Calls that type nothing and ack nothing.
spec fn quiet(call: Call) -> bool {
    call is Active || call is SetMarked || call is ClearMarked
}

proof fn lemma_typed_quiet(calls: Seq<Call>, more: Seq<Call>)
    requires
        forall|i: int| 0 <= i < more.len() ==> quiet(#[trigger] more[i]),
    ensures
        typed(calls + more) == typed(calls),
        outcomes(calls + more) == outcomes(calls),
    decreases more.len(),
{
    if more.len() == 0 {
        assert(calls + more =~= calls);
    } else {
        let before = more.drop_last();
        assert forall|i: int| 0 <= i < before.len() implies quiet(#[trigger] before[i]) by {
            assert(before[i] == more[i]);
        }
        lemma_typed_quiet(calls, before);
        assert(calls + more =~= (calls + before).push(more.last()));
        lemma_typed_push(calls + before, more.last());
        assert(quiet(more[more.len() - 1]));
    }
}

/// The nack of what waits, and the removal of a mark, as they stand in the calls.
spec fn settling(pending: Option<PendingView>, marked: Option<WindowId>) -> Seq<Call> {
    let nack = match pending {
        Some(pending) => seq![Call::Ack { seq: pending.seq, ok: false }],
        None => seq![],
    };
    let clear = match marked {
        Some(window) => seq![Call::ClearMarked { window }],
        None => seq![],
    };
    nack + clear
}

proof fn lemma_typed_settling(
    calls: Seq<Call>,
    pending: Option<PendingView>,
    marked: Option<WindowId>,
)
    requires
        typed(calls).len() == 0,
    ensures
        typed(calls + settling(pending, marked)).len() == 0,
        outcomes(calls + settling(pending, marked)) == match pending {
            Some(pending) => outcomes(calls).push(
                Outcome { seq: pending.seq, ok: false, typed: seq![] },
            ),
            None => outcomes(calls),
        },
{
    assert(typed(calls) =~= seq![]);
    let clear = match marked {
        Some(window) => seq![Call::ClearMarked { window }],
        None => seq![],
    };
    match pending {
        Some(pending) => {
            let nack = Call::Ack { seq: pending.seq, ok: false };
            lemma_typed_push(calls, nack);
            assert(calls + settling(Some(pending), marked) =~= calls.push(nack) + clear);
            lemma_typed_quiet(calls.push(nack), clear);
        },
        None => {
            assert(calls + settling(None, marked) =~= calls + clear);
            lemma_typed_quiet(calls, clear);
        },
    }
}

proof fn lemma_typed_deliver(
    ready: Seq<Call>,
    window: WindowId,
    seq: u64,
    text: Seq<char>,
    submit: bool,
    inserted: bool,
    calls: Seq<Call>,
)
    requires
        typed(ready).len() == 0,
        ({
            let insert = ready.push(Call::Insert { window, text, inserted });
            calls == if submit && inserted {
                insert.push(Call::Enter { window }).push(Call::Ack { seq, ok: true })
            } else {
                insert.push(Call::Ack { seq, ok: inserted })
            }
        }),
    ensures
        typed(calls).len() == 0,
        outcomes(calls).len() == outcomes(ready).len() + 1,
        outcomes(calls).drop_last() == outcomes(ready),
        carries_out(outcomes(calls).last(), (seq, text, submit)),
{
    assert(typed(ready) =~= seq![]);
    let call = Call::Insert { window, text, inserted };
    let insert = ready.push(call);
    lemma_typed_push(ready, call);
    lemma_typed_push(insert, Call::Enter { window });
    lemma_typed_push(insert, Call::Ack { seq, ok: inserted });
    lemma_typed_push(insert.push(Call::Enter { window }), Call::Ack { seq, ok: true });
    assert(outcomes(calls).drop_last() =~= outcomes(ready));
}

/// What is settled first: where something waits, its nack is its outcome.
proof fn lemma_carried_settling(
    progress: Progress,
    marked: Option<WindowId>,
    orders: Seq<Ordered>,
)
    requires
        all_carried_out(progress, orders),
    ensures
        ({
            let calls = progress.calls + settling(progress.state.pending, marked);
            &&& typed(calls).len() == 0
            &&& outcomes(calls).len() == orders.len()
            &&& forall|i: int|
                0 <= i < orders.len() ==> carries_out(#[trigger] outcomes(calls)[i], orders[i])
        }),
{
    let pending = progress.state.pending;
    let calls = progress.calls + settling(pending, marked);
    let before = outcomes(progress.calls);
    lemma_typed_settling(progress.calls, pending, marked);
    assert forall|i: int| 0 <= i < orders.len() implies carries_out(
        #[trigger] outcomes(calls)[i],
        orders[i],
    ) by {
        if i < before.len() {
            assert(outcomes(calls)[i] == before[i]);
        }
    }
}

proof fn lemma_carried_deliver(
    progress: Progress,
    received: ReceivedEventView,
    answers: Answers,
    orders: Seq<Ordered>,
)
    requires
        all_carried_out(progress, orders),
        received.event is Deliver,
    ensures
        all_carried_out(
            handled(progress, received, answers),
            orders + ordered(Input::Event(received, answers)),
        ),
{
    if let FrontendEventView::Deliver { text, submit } = received.event {
        let next = handled(progress, received, answers);
        let pending = progress.state.pending;
        lemma_deliver(progress, received.seq, text, submit, answers);
        lemma_carried_settling(progress, progress.state.marked, orders);
        let settled = progress.calls + settling(pending, progress.state.marked);
        let call = Call::Active { window: answers.active };
        let asked = settled.push(call);
        lemma_typed_push(settled, call);
        let nack = match pending {
            Some(pending) => seq![Call::Ack { seq: pending.seq, ok: false }],
            None => seq![],
        };
        let clear = match progress.state.marked {
            Some(window) => seq![Call::ClearMarked { window }],
            None => seq![],
        };
        assert(progress.calls + nack + clear =~= settled);
        let all = orders.push((received.seq, text, submit));
        assert(orders + ordered(Input::Event(received, answers)) =~= all);
        if let Some(window) = answers.active {
            lemma_typed_deliver(
                asked,
                window,
                received.seq,
                text,
                submit,
                answers.inserted,
                next.calls,
            );
            let after = outcomes(next.calls);
            assert forall|i: int| 0 <= i < after.len() implies carries_out(
                #[trigger] after[i],
                all[i],
            ) by {
                if i < orders.len() {
                    assert(after[i] == after.drop_last()[i]);
                    assert(carries_out(outcomes(settled)[i], orders[i]));
                }
            }
        }
    }
}

proof fn lemma_carried_end(
    progress: Progress,
    received: ReceivedEventView,
    answers: Answers,
    orders: Seq<Ordered>,
)
    requires
        all_carried_out(progress, orders),
        received.event is Cancelled || received.event is Refused,
    ensures
        all_carried_out(handled(progress, received, answers), orders),
{
    let next = handled(progress, received, answers);
    lemma_dictation_is_called_off(progress, received, answers);
    lemma_carried_settling(progress, progress.state.marked, orders);
    assert(next.calls =~= progress.calls + settling(progress.state.pending, progress.state.marked));
}

/// What showing a text calls behind the nack of what waits.
proof fn lemma_text_calls(
    progress: Progress,
    received: ReceivedEventView,
    answers: Answers,
    settled: Seq<Call>,
) -> (rest: Seq<Call>)
    requires
        received.event is RecordingStarted || received.event is Partial
            || received.event is AwaitingConfirm,
        settled == if received.event is RecordingStarted {
            progress.calls + settling(progress.state.pending, None)
        } else {
            progress.calls
        },
    ensures
        handled(progress, received, answers).calls == settled + rest,
        forall|i: int| 0 <= i < rest.len() ==> quiet(#[trigger] rest[i]),
{
    let next = handled(progress, received, answers);
    let base = if received.event is RecordingStarted {
        nacked(progress)
    } else {
        progress
    };
    assert(base.calls =~= settled);
    let rest = next.calls.skip(settled.len() as int);
    assert(next.calls =~= settled + rest);
    rest
}

proof fn lemma_carried_text(
    progress: Progress,
    received: ReceivedEventView,
    answers: Answers,
    orders: Seq<Ordered>,
)
    requires
        all_carried_out(progress, orders),
        received.event is RecordingStarted || received.event is Partial
            || received.event is AwaitingConfirm,
    ensures
        all_carried_out(handled(progress, received, answers), orders),
{
    let next = handled(progress, received, answers);
    let settled = if received.event is RecordingStarted {
        progress.calls + settling(progress.state.pending, None)
    } else {
        progress.calls
    };
    lemma_carried_settling(progress, None, orders);
    let rest = lemma_text_calls(progress, received, answers, settled);
    lemma_typed_quiet(settled, rest);
    assert(outcomes(next.calls) == outcomes(settled));
}

proof fn lemma_carried_poll(
    progress: Progress,
    generation: usize,
    answers: Answers,
    orders: Seq<Ordered>,
)
    requires
        all_carried_out(progress, orders),
    ensures
        all_carried_out(polled(progress, generation, answers), orders),
{
    let next = polled(progress, generation, answers);
    lemma_poll(progress, generation, answers);
    if let Some(pending) = progress.state.pending {
        if pending.generation == generation {
            let call = Call::Active { window: answers.active };
            let asked = progress.calls.push(call);
            let before = outcomes(progress.calls);
            let after = outcomes(next.calls);
            lemma_typed_push(progress.calls, call);
            match answers.active {
                Some(window) => {
                    lemma_typed_deliver(
                        asked,
                        window,
                        pending.seq,
                        pending.text,
                        pending.submit,
                        answers.inserted,
                        next.calls,
                    );
                    assert forall|i: int| 0 <= i < after.len() implies carries_out(
                        #[trigger] after[i],
                        orders[i],
                    ) by {
                        if i < before.len() {
                            assert(after[i] == after.drop_last()[i]);
                        }
                    }
                },
                None => {
                    lemma_typed_push(asked, Call::Ack { seq: pending.seq, ok: false });
                },
            }
        }
    }
}

/// As long as the connection holds, whatever happens keeps the account of what
/// delivers ask for and what was done.
pub proof fn lemma_delivers_are_carried_out(
    progress: Progress,
    input: Input,
    orders: Seq<Ordered>,
)
    requires
        all_carried_out(progress, orders),
        !(input is Reset),
    ensures
        all_carried_out(stepped(progress, input), orders + ordered(input)),
{
    assert(orders + Seq::<Ordered>::empty() =~= orders);
    match input {
        Input::Event(received, answers) => match received.event {
            FrontendEventView::Deliver { .. } => lemma_carried_deliver(
                progress,
                received,
                answers,
                orders,
            ),
            FrontendEventView::Cancelled | FrontendEventView::Refused => lemma_carried_end(
                progress,
                received,
                answers,
                orders,
            ),
            FrontendEventView::Unknown => {},
            _ => lemma_carried_text(progress, received, answers, orders),
        },
        Input::Poll(generation, answers) => lemma_carried_poll(
            progress,
            generation,
            answers,
            orders,
        ),
        Input::Reset => {},
    }
}

/// As long as the connection holds, every deliver gets what it asks for, whatever
/// happened before it and whether a window was active at once or only later: its
/// text is inserted at most once; Enter follows right behind, in the same
/// window, exactly where it asks for submitting and the text went in; its one
/// ack comes last. Nothing is typed for anything else.
pub proof fn lemma_every_deliver_is_carried_out(
    progress: Progress,
    inputs: Seq<Input>,
    orders: Seq<Ordered>,
)
    requires
        all_carried_out(progress, orders),
        forall|i: int| 0 <= i < inputs.len() ==> !(#[trigger] inputs[i] is Reset),
    ensures
        all_carried_out(ran(progress, inputs), orders + all_ordered(inputs)),
        all_carried_out(fresh(), seq![]),
    decreases inputs.len(),
{
    if inputs.len() > 0 {
        let before = inputs.drop_last();
        assert forall|i: int| 0 <= i < before.len() implies !(#[trigger] before[i] is Reset) by {
            assert(before[i] == inputs[i]);
        }
        lemma_every_deliver_is_carried_out(progress, before, orders);
        assert(!(inputs[inputs.len() - 1] is Reset));
        let so_far = orders + all_ordered(before);
        lemma_delivers_are_carried_out(ran(progress, before), inputs.last(), so_far);
        assert(so_far + ordered(inputs.last()) =~= orders + all_ordered(inputs));
    } else {
        assert(orders + all_ordered(inputs) =~= orders);
    }
}

/// A controller starts idle, with nothing marked and nothing waiting; an event
/// that is not known changes and calls nothing.
pub proof fn lemma_nothing_happens(progress: Progress, seq: u64, answers: Answers)
    ensures
        fresh().state.phase is Idle,
        fresh().state.marked is None,
        fresh().state.pending is None,
        fresh().calls.len() == 0,
        handled(
            progress,
            ReceivedEventView { seq, event: FrontendEventView::Unknown },
            answers,
        ) == progress,
{
}

} // verus!
