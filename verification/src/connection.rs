//! The connection to the daemon and its status.
//!
//! [`DontSpeak`] holds the state of the connection, [`ConnectionLoop`] the
//! decisions of the loop that keeps it up. Neither does any I/O: what happened
//! goes in, and what has to be done comes out as a list of [`Effect`]s and, for
//! the loop, a [`LoopAction`].
//!
//! Everything degrades silently: without a daemon on the socket the status is
//! [`Status::Absent`] and nothing is shown.

use crate::client::{
    error_causes, is_absent_error, names_absence, OneShot, ReceivedEvent, ReceivedEventView,
};
use crate::protocol::{request_text, Request, RequestView};
use vstd::arithmetic::power2::{lemma2_to64, lemma_pow2_unfold, pow2};
use vstd::prelude::*;

verus! {

// --- Status ---

/// The state of the connection, for the UI and the command palette.
#[derive(Debug, PartialEq, Eq)]
pub enum Status {
    /// The integration is turned off in settings.
    Disabled,
    /// A connection attempt is in flight, or due after a lost connection.
    Connecting,
    /// Subscribed to the daemon as a frontend.
    Connected,
    /// Connecting failed with a real error, not just a missing daemon.
    Error(String),
    /// No daemon is listening on the socket: it is not installed or not
    /// running, and the editor behaves as if it had no integration.
    Absent,
}

/// What a [`Status`] says.
pub enum StatusView {
    Disabled,
    Connecting,
    Connected,
    Error(Seq<char>),
    Absent,
}

impl View for Status {
    type V = StatusView;

    open spec fn view(&self) -> StatusView {
        match self {
            Status::Disabled => StatusView::Disabled,
            Status::Connecting => StatusView::Connecting,
            Status::Connected => StatusView::Connected,
            Status::Error(error) => StatusView::Error(error@),
            Status::Absent => StatusView::Absent,
        }
    }
}

impl Clone for Status {
    fn clone(&self) -> (status: Status)
        ensures
            status@ == self@,
    {
        match self {
            Status::Disabled => Status::Disabled,
            Status::Connecting => Status::Connecting,
            Status::Connected => Status::Connected,
            Status::Error(error) => Status::Error(error.clone()),
            Status::Absent => Status::Absent,
        }
    }
}

impl Status {
    pub fn is_connected(&self) -> (yes: bool)
        ensures
            yes == (self is Connected),
    {
        matches!(self, Status::Connected)
    }
}

/// What the connection tells its observers.
#[derive(Debug, PartialEq, Eq)]
pub enum Event {
    /// The status changed.
    StatusChanged,
    /// A dictation event arrived from the daemon. A `Deliver` must be answered
    /// with an ack.
    FrontendEvent(ReceivedEvent),
}

/// What an [`Event`] says.
pub enum EventView {
    StatusChanged,
    FrontendEvent(ReceivedEventView),
}

impl View for Event {
    type V = EventView;

    open spec fn view(&self) -> EventView {
        match self {
            Event::StatusChanged => EventView::StatusChanged,
            Event::FrontendEvent(received) => EventView::FrontendEvent(received@),
        }
    }
}

// --- The command palette ---

/// Which of the integration's actions the command palette shows.
#[derive(Clone, Copy, Debug, PartialEq, Eq, Structural)]
pub struct Visibility {
    pub toggle_dictation: bool,
    pub stop_speech: bool,
    pub open_voice_settings: bool,
    pub reconnect: bool,
}

/// The actions on speech need a connection, the others only that the
/// integration is on.
pub open spec fn visibility(status: StatusView) -> Visibility {
    Visibility {
        toggle_dictation: status is Connected,
        stop_speech: status is Connected,
        open_voice_settings: !(status is Disabled),
        reconnect: !(status is Disabled),
    }
}

/// Which actions the command palette shows in a status.
pub fn action_visibilities(status: &Status) -> (shown: Visibility)
    ensures
        shown == visibility(status@),
{
    match status {
        Status::Disabled => Visibility {
            toggle_dictation: false,
            stop_speech: false,
            open_voice_settings: false,
            reconnect: false,
        },
        Status::Connected => Visibility {
            toggle_dictation: true,
            stop_speech: true,
            open_voice_settings: true,
            reconnect: true,
        },
        Status::Connecting | Status::Error(_) | Status::Absent => Visibility {
            toggle_dictation: false,
            stop_speech: false,
            open_voice_settings: true,
            reconnect: true,
        },
    }
}

// --- Effects ---

/// What has to be done for a change of the connection's state.
#[derive(Debug, PartialEq, Eq)]
pub enum Effect {
    /// Show and hide actions in the command palette.
    UpdatePalette(Visibility),
    /// Tell the observers.
    Emit(Event),
    /// Render anew what shows the state.
    Notify,
    /// Start a connection loop of this generation in place of the one that
    /// runs.
    SpawnLoop(usize),
    /// Cancel the connection loop that runs.
    DropLoop,
}

/// What an [`Effect`] says.
pub enum EffectView {
    UpdatePalette(Visibility),
    Emit(EventView),
    Notify,
    SpawnLoop(usize),
    DropLoop,
}

impl View for Effect {
    type V = EffectView;

    open spec fn view(&self) -> EffectView {
        match self {
            Effect::UpdatePalette(shown) => EffectView::UpdatePalette(*shown),
            Effect::Emit(event) => EffectView::Emit(event@),
            Effect::Notify => EffectView::Notify,
            Effect::SpawnLoop(generation) => EffectView::SpawnLoop(*generation),
            Effect::DropLoop => EffectView::DropLoop,
        }
    }
}

/// What effects say, in their order.
pub open spec fn effect_views(effects: Seq<Effect>) -> Seq<EffectView> {
    effects.map_values(|effect: Effect| effect@)
}

/// What follows a new status, in this order.
pub open spec fn announced(status: StatusView) -> Seq<EffectView> {
    seq![
        EffectView::UpdatePalette(visibility(status)),
        EffectView::Emit(EventView::StatusChanged),
        EffectView::Notify,
    ]
}

// --- The connection ---

/// The connection, with the channel on which acks go to the daemon while it is
/// up.
pub enum DaemonConnection<A> {
    Disabled,
    Connecting,
    Connected { acks: A },
    Error(String),
    Absent,
}

/// What a [`DaemonConnection`] says.
pub enum ConnectionView<A> {
    Disabled,
    Connecting,
    Connected { acks: A },
    Error(Seq<char>),
    Absent,
}

impl<A> View for DaemonConnection<A> {
    type V = ConnectionView<A>;

    open spec fn view(&self) -> ConnectionView<A> {
        match self {
            DaemonConnection::Disabled => ConnectionView::Disabled,
            DaemonConnection::Connecting => ConnectionView::Connecting,
            DaemonConnection::Connected { acks } => ConnectionView::Connected { acks: *acks },
            DaemonConnection::Error(error) => ConnectionView::Error(error@),
            DaemonConnection::Absent => ConnectionView::Absent,
        }
    }
}

/// The status that shows a connection.
pub open spec fn status_of<A>(connection: ConnectionView<A>) -> StatusView {
    match connection {
        ConnectionView::Disabled => StatusView::Disabled,
        ConnectionView::Connecting => StatusView::Connecting,
        ConnectionView::Connected { .. } => StatusView::Connected,
        ConnectionView::Error(error) => StatusView::Error(error),
        ConnectionView::Absent => StatusView::Absent,
    }
}

/// The connection to the daemon.
pub struct DontSpeak<A> {
    connection: DaemonConnection<A>,
    /// Counts starts and stops, so that a connection loop notices that another
    /// one took its place.
    generation: usize,
}

/// What a [`DontSpeak`] holds.
pub struct DontSpeakView<A> {
    pub connection: ConnectionView<A>,
    pub generation: usize,
}

impl<A> View for DontSpeak<A> {
    type V = DontSpeakView<A>;

    closed spec fn view(&self) -> DontSpeakView<A> {
        DontSpeakView { connection: self.connection@, generation: self.generation }
    }
}

/// The count behind a start or a stop.
pub open spec fn next_generation(generation: usize) -> usize {
    if generation == usize::MAX {
        0
    } else {
        (generation + 1) as usize
    }
}

/// A state and what has to be done for it.
pub type Changed<A> = (DontSpeakView<A>, Seq<EffectView>);

/// A start of the connection loop, whatever the state was.
pub open spec fn started<A>(state: DontSpeakView<A>) -> Changed<A> {
    let generation = next_generation(state.generation);
    (
        DontSpeakView { connection: ConnectionView::Connecting, generation },
        announced(StatusView::Connecting).push(EffectView::SpawnLoop(generation)),
    )
}

/// A stop of the connection loop.
pub open spec fn stopped<A>(state: DontSpeakView<A>) -> Changed<A> {
    (
        DontSpeakView {
            connection: ConnectionView::Disabled,
            generation: next_generation(state.generation),
        },
        seq![EffectView::DropLoop] + announced(StatusView::Disabled),
    )
}

/// What a change of the settings does. Where it does not concern the
/// connection, the palette is still brought up to date.
pub open spec fn settings_changed<A>(state: DontSpeakView<A>, enabled: bool) -> Changed<A> {
    let running = !(state.connection is Disabled);
    if enabled && !running {
        started(state)
    } else if !enabled && running {
        stopped(state)
    } else {
        (state, seq![EffectView::UpdatePalette(visibility(status_of(state.connection)))])
    }
}

/// What the reconnect action does.
pub open spec fn reconnected<A>(state: DontSpeakView<A>, enabled: bool) -> Changed<A> {
    if enabled {
        started(state)
    } else {
        (state, seq![])
    }
}

/// The state before anything happened.
pub open spec fn initial<A>() -> DontSpeakView<A> {
    DontSpeakView { connection: ConnectionView::Disabled, generation: 0 }
}

impl<A> DontSpeak<A> {
    /// The connection at startup, with what has to be done for it.
    pub fn new(enabled: bool) -> (made: (DontSpeak<A>, Vec<Effect>))
        ensures
            (made.0@, effect_views(made.1@)) == settings_changed(initial::<A>(), enabled),
    {
        let mut this: DontSpeak<A> = DontSpeak {
            connection: DaemonConnection::Disabled,
            generation: 0,
        };
        let effects = this.handle_settings_changed(enabled);
        (this, effects)
    }

    pub fn status(&self) -> (status: Status)
        ensures
            status@ == status_of(self@.connection),
    {
        match &self.connection {
            DaemonConnection::Disabled => Status::Disabled,
            DaemonConnection::Connecting => Status::Connecting,
            DaemonConnection::Connected { .. } => Status::Connected,
            DaemonConnection::Error(error) => Status::Error(error.clone()),
            DaemonConnection::Absent => Status::Absent,
        }
    }

    /// Starts a one-shot request, on a connection of its own: the subscription
    /// carries only events and acks.
    pub fn request(&self, sent: &Request) -> (exchange: (String, OneShot))
        ensures
            exchange.0@ == request_text(sent@).push('\n'),
            exchange.1@ == Seq::<u8>::empty(),
    {
        crate::client::request(sent)
    }

    /// Starts the request that stops all speech in flight.
    pub fn stop_speech(&self) -> (exchange: (String, OneShot))
        ensures
            exchange.0@ == request_text(RequestView::StopSpeech { session: None }).push('\n'),
            exchange.1@ == Seq::<u8>::empty(),
    {
        self.request(&Request::StopSpeech { session: None })
    }

    /// Where an ack of a deliver event goes, and the ack. `None` where there
    /// is no connection: the daemon then runs into its own deadline and pastes
    /// the utterance, so that it is not lost.
    pub fn ack_deliver(&self, seq: u64, ok: bool) -> (routed: Option<(&A, (u64, bool))>)
        ensures
            routed == match self@.connection {
                ConnectionView::Connected { acks } => Some((&acks, (seq, ok))),
                _ => None,
            },
    {
        match &self.connection {
            DaemonConnection::Connected { acks } => Some((acks, (seq, ok))),
            _ => None,
        }
    }

    /// Starts the connection loop anew, without waiting for its next attempt.
    pub fn reconnect(&mut self, enabled: bool) -> (effects: Vec<Effect>)
        ensures
            (final(self)@, effect_views(effects@)) == reconnected(old(self)@, enabled),
    {
        if enabled {
            self.start()
        } else {
            let effects: Vec<Effect> = Vec::new();
            assert(effect_views(effects@) =~= seq![]);
            effects
        }
    }

    /// Starts or stops the connection as the settings say.
    pub fn handle_settings_changed(&mut self, enabled: bool) -> (effects: Vec<Effect>)
        ensures
            (final(self)@, effect_views(effects@)) == settings_changed(old(self)@, enabled),
    {
        let running = !matches!(self.connection, DaemonConnection::Disabled);
        if enabled && !running {
            self.start()
        } else if !enabled && running {
            self.stop()
        } else {
            let effects = vec![self.update_action_visibilities()];
            assert(effect_views(effects@) =~= settings_changed(old(self)@, enabled).1);
            effects
        }
    }

    fn advance(&mut self)
        ensures
            final(self)@.connection == old(self)@.connection,
            final(self)@.generation == next_generation(old(self)@.generation),
    {
        if self.generation == usize::MAX {
            self.generation = 0;
        } else {
            self.generation = self.generation + 1;
        }
    }

    fn start(&mut self) -> (effects: Vec<Effect>)
        ensures
            (final(self)@, effect_views(effects@)) == started(old(self)@),
    {
        self.advance();
        let mut effects = self.set_connection(DaemonConnection::Connecting);
        let ghost before = effect_views(effects@);
        effects.push(Effect::SpawnLoop(self.generation));
        assert(effect_views(effects@) =~= before.push(EffectView::SpawnLoop(self.generation)));
        effects
    }

    fn stop(&mut self) -> (effects: Vec<Effect>)
        ensures
            (final(self)@, effect_views(effects@)) == stopped(old(self)@),
    {
        self.advance();
        let mut effects = vec![Effect::DropLoop];
        let mut more = self.set_connection(DaemonConnection::Disabled);
        let ghost behind = effect_views(more@);
        effects.append(&mut more);
        assert(effect_views(effects@) =~= seq![EffectView::DropLoop] + behind);
        effects
    }

    /// Sets the connection where `generation` is still the current one. `None`
    /// where it is not, and the loop that asked has to end.
    fn set_connection_if_current(
        &mut self,
        generation: usize,
        connection: DaemonConnection<A>,
    ) -> (effects: Option<Vec<Effect>>)
        ensures
            final(self)@.generation == old(self)@.generation,
            generation == old(self)@.generation ==> {
                &&& final(self)@.connection == connection@
                &&& effects matches Some(list) && effect_views(list@) == announced(
                    status_of(connection@),
                )
            },
            generation != old(self)@.generation ==> final(self)@ == old(self)@ && effects is None,
    {
        if self.generation != generation {
            return None;
        }
        Some(self.set_connection(connection))
    }

    fn set_connection(&mut self, connection: DaemonConnection<A>) -> (effects: Vec<Effect>)
        ensures
            final(self)@.connection == connection@,
            final(self)@.generation == old(self)@.generation,
            effect_views(effects@) == announced(status_of(connection@)),
    {
        self.connection = connection;
        let effects = vec![
            self.update_action_visibilities(),
            Effect::Emit(Event::StatusChanged),
            Effect::Notify,
        ];
        assert(effect_views(effects@) =~= announced(status_of(connection@)));
        effects
    }

    fn update_action_visibilities(&self) -> (effect: Effect)
        ensures
            effect@ == EffectView::UpdatePalette(visibility(status_of(self@.connection))),
    {
        Effect::UpdatePalette(action_visibilities(&self.status()))
    }
}

// --- The connection loop ---

/// How long to wait before the first attempt to connect again, in
/// milliseconds. The wait doubles with each attempt up to
/// [`MAX_RECONNECT_DELAY`].
pub const INITIAL_RECONNECT_DELAY: u64 = 500;

/// The longest wait between two attempts, in milliseconds.
pub const MAX_RECONNECT_DELAY: u64 = 30_000;

/// The wait behind one of this length.
pub open spec fn next_delay(delay: u64) -> u64 {
    if 2 * delay < MAX_RECONNECT_DELAY {
        (2 * delay) as u64
    } else {
        MAX_RECONNECT_DELAY
    }
}

/// The loop that keeps the connection up.
pub struct ConnectionLoop {
    generation: usize,
    delay: u64,
}

/// What a [`ConnectionLoop`] holds.
pub struct LoopView {
    pub generation: usize,
    pub delay: u64,
}

impl View for ConnectionLoop {
    type V = LoopView;

    closed spec fn view(&self) -> LoopView {
        LoopView { generation: self.generation, delay: self.delay }
    }
}

/// What happened to the loop.
pub enum LoopInput<A> {
    /// It was started, with or without the variable set that forces an error.
    Started { forced_error: bool },
    /// The subscription is open.
    Subscribed { acks: A },
    /// There is no subscription: no daemon is listening, or connecting failed
    /// with this message.
    Failed { absent: bool, message: String },
    /// The daemon sent an event.
    Received(ReceivedEvent),
    /// The subscription ended.
    Ended,
    /// The wait is over.
    Waited,
}

/// What a [`LoopInput`] says.
pub enum LoopInputView<A> {
    Started { forced_error: bool },
    Subscribed { acks: A },
    Failed { absent: bool, message: Seq<char> },
    Received(ReceivedEventView),
    Ended,
    Waited,
}

impl<A> View for LoopInput<A> {
    type V = LoopInputView<A>;

    open spec fn view(&self) -> LoopInputView<A> {
        match self {
            LoopInput::Started { forced_error } => LoopInputView::Started {
                forced_error: *forced_error,
            },
            LoopInput::Subscribed { acks } => LoopInputView::Subscribed { acks: *acks },
            LoopInput::Failed { absent, message } => LoopInputView::Failed {
                absent: *absent,
                message: message@,
            },
            LoopInput::Received(event) => LoopInputView::Received(event@),
            LoopInput::Ended => LoopInputView::Ended,
            LoopInput::Waited => LoopInputView::Waited,
        }
    }
}

/// What the loop does next.
#[derive(Clone, Copy, Debug, PartialEq, Eq, Structural)]
pub enum LoopAction {
    /// Connect and subscribe.
    Subscribe,
    /// Wait for the next event of the subscription.
    NextEvent,
    /// Wait this many milliseconds.
    Wait(u64),
    /// End.
    Exit,
}

/// What a step of the loop leads to.
pub struct LoopStep<A> {
    pub connection_loop: LoopView,
    pub owner: DontSpeakView<A>,
    pub action: LoopAction,
    pub effects: Seq<EffectView>,
}

/// A step that makes a new connection state known, where the loop is current,
/// and ends the loop where it is not.
pub open spec fn reported<A>(
    connection_loop: LoopView,
    owner: DontSpeakView<A>,
    connection: ConnectionView<A>,
    action: LoopAction,
) -> LoopStep<A> {
    if connection_loop.generation == owner.generation {
        LoopStep {
            connection_loop,
            owner: DontSpeakView { connection, ..owner },
            action,
            effects: announced(status_of(connection)),
        }
    } else {
        LoopStep { connection_loop, owner, action: LoopAction::Exit, effects: seq![] }
    }
}

/// A step behind which the loop waits, where it is current, before the next
/// attempt.
pub open spec fn backed_off<A>(
    connection_loop: LoopView,
    owner: DontSpeakView<A>,
    connection: ConnectionView<A>,
) -> LoopStep<A> {
    let waiting = LoopView { delay: next_delay(connection_loop.delay), ..connection_loop };
    reported(waiting, owner, connection, LoopAction::Wait(connection_loop.delay))
}

/// The message of the error that a variable forces.
pub open spec fn forced_message() -> Seq<char> {
    "Forced error for testing (ZED_FORCE_DONTSPEAK_ERROR)"@
}

/// A step of the loop.
pub open spec fn loop_step<A>(
    connection_loop: LoopView,
    owner: DontSpeakView<A>,
    input: LoopInputView<A>,
) -> LoopStep<A> {
    match input {
        LoopInputView::Started { forced_error: true } => reported(
            connection_loop,
            owner,
            ConnectionView::Error(forced_message()),
            LoopAction::Exit,
        ),
        LoopInputView::Started { forced_error: false } | LoopInputView::Waited => LoopStep {
            connection_loop,
            owner,
            action: LoopAction::Subscribe,
            effects: seq![],
        },
        LoopInputView::Subscribed { acks } => reported(
            LoopView { delay: INITIAL_RECONNECT_DELAY, ..connection_loop },
            owner,
            ConnectionView::Connected { acks },
            LoopAction::NextEvent,
        ),
        LoopInputView::Failed { absent, message } => backed_off(
            connection_loop,
            owner,
            if absent {
                ConnectionView::Absent
            } else {
                ConnectionView::Error(message)
            },
        ),
        LoopInputView::Received(event) => if connection_loop.generation == owner.generation {
            LoopStep {
                connection_loop,
                owner,
                action: LoopAction::NextEvent,
                effects: seq![EffectView::Emit(EventView::FrontendEvent(event))],
            }
        } else {
            LoopStep { connection_loop, owner, action: LoopAction::Exit, effects: seq![] }
        },
        LoopInputView::Ended => backed_off(connection_loop, owner, ConnectionView::Connecting),
    }
}

/// `format!` with `{:#}` on an `anyhow::Error`: the error and its causes in
/// words. Nothing is claimed of the words, which are those of the errors in
/// the chain.
#[verifier::external_body]
pub(crate) fn describe(error: &anyhow::Error) -> (message: String) {
    format!("{error:#}")
}

/// An attempt to connect that failed, as the loop takes it.
pub fn attempt_failed<A>(error: &anyhow::Error) -> (input: LoopInput<A>)
    ensures
        input matches LoopInput::Failed { absent, .. } && absent == names_absence(
            error_causes(*error),
        ),
{
    LoopInput::Failed { absent: is_absent_error(error), message: describe(error) }
}

impl ConnectionLoop {
    /// A loop of this generation, before it runs.
    pub fn new(generation: usize) -> (connection_loop: ConnectionLoop)
        ensures
            connection_loop@ == (LoopView { generation, delay: INITIAL_RECONNECT_DELAY }),
    {
        ConnectionLoop { generation, delay: INITIAL_RECONNECT_DELAY }
    }

    /// One step of the loop.
    pub fn step<A>(&mut self, owner: &mut DontSpeak<A>, input: LoopInput<A>) -> (next: (
        LoopAction,
        Vec<Effect>,
    ))
        ensures
            (LoopStep {
                connection_loop: final(self)@,
                owner: final(owner)@,
                action: next.0,
                effects: effect_views(next.1@),
            }) == loop_step(old(self)@, old(owner)@, input@),
    {
        match input {
            LoopInput::Started { forced_error } => {
                if forced_error {
                    let message = "Forced error for testing (ZED_FORCE_DONTSPEAK_ERROR)".to_string();
                    self.report(owner, DaemonConnection::Error(message), LoopAction::Exit)
                } else {
                    no_effects(LoopAction::Subscribe)
                }
            },
            LoopInput::Waited => no_effects(LoopAction::Subscribe),
            LoopInput::Subscribed { acks } => {
                self.delay = INITIAL_RECONNECT_DELAY;
                self.report(owner, DaemonConnection::Connected { acks }, LoopAction::NextEvent)
            },
            LoopInput::Failed { absent, message } => {
                let connection = if absent {
                    DaemonConnection::Absent
                } else {
                    DaemonConnection::Error(message)
                };
                self.back_off(owner, connection)
            },
            LoopInput::Received(event) => {
                if owner.generation != self.generation {
                    return no_effects(LoopAction::Exit);
                }
                let effects = vec![Effect::Emit(Event::FrontendEvent(event))];
                assert(effect_views(effects@) =~= seq![
                    EffectView::Emit(EventView::FrontendEvent(event@)),
                ]);
                (LoopAction::NextEvent, effects)
            },
            LoopInput::Ended => self.back_off(owner, DaemonConnection::Connecting),
        }
    }

    fn report<A>(
        &self,
        owner: &mut DontSpeak<A>,
        connection: DaemonConnection<A>,
        action: LoopAction,
    ) -> (next: (LoopAction, Vec<Effect>))
        ensures
            (LoopStep {
                connection_loop: self@,
                owner: final(owner)@,
                action: next.0,
                effects: effect_views(next.1@),
            }) == reported(self@, old(owner)@, connection@, action),
    {
        match owner.set_connection_if_current(self.generation, connection) {
            Some(effects) => (action, effects),
            None => no_effects(LoopAction::Exit),
        }
    }

    fn back_off<A>(&mut self, owner: &mut DontSpeak<A>, connection: DaemonConnection<A>) -> (next: (
        LoopAction,
        Vec<Effect>,
    ))
        ensures
            (LoopStep {
                connection_loop: final(self)@,
                owner: final(owner)@,
                action: next.0,
                effects: effect_views(next.1@),
            }) == backed_off(old(self)@, old(owner)@, connection@),
    {
        let wait = LoopAction::Wait(self.delay);
        self.delay = if self.delay < MAX_RECONNECT_DELAY / 2 {
            self.delay * 2
        } else {
            MAX_RECONNECT_DELAY
        };
        self.report(owner, connection, wait)
    }
}

/// An action without effects.
fn no_effects(action: LoopAction) -> (next: (LoopAction, Vec<Effect>))
    ensures
        next.0 == action,
        effect_views(next.1@) == Seq::<EffectView>::empty(),
{
    let effects: Vec<Effect> = Vec::new();
    assert(effect_views(effects@) =~= seq![]);
    (action, effects)
}

// --- Laws ---

/// A loop that another start or a stop has replaced changes nothing, tells
/// nobody and ends; at most it connects once more, to no effect.
pub proof fn lemma_stale_loop<A>(
    connection_loop: LoopView,
    owner: DontSpeakView<A>,
    input: LoopInputView<A>,
)
    requires
        connection_loop.generation != owner.generation,
    ensures
        loop_step(connection_loop, owner, input).owner == owner,
        loop_step(connection_loop, owner, input).effects == Seq::<EffectView>::empty(),
        match input {
            LoopInputView::Started { forced_error: false } | LoopInputView::Waited => loop_step(
                connection_loop,
                owner,
                input,
            ).action is Subscribe,
            _ => loop_step(connection_loop, owner, input).action is Exit,
        },
{
}

/// A start and a stop replace every loop that was started before.
pub proof fn lemma_loops_are_replaced<A>(state: DontSpeakView<A>, generation: usize)
    requires
        generation <= state.generation < usize::MAX,
    ensures
        generation != started(state).0.generation,
        generation != stopped(state).0.generation,
        started(state).1.last() == EffectView::SpawnLoop(started(state).0.generation),
{
}

/// Behind a change of the settings the connection is off exactly where the
/// integration is off.
pub proof fn lemma_off_iff_disabled<A>(state: DontSpeakView<A>, enabled: bool)
    ensures
        settings_changed(state, enabled).0.connection is Disabled <==> !enabled,
{
}

/// What can happen to the connection.
pub enum Command<A> {
    SettingsChanged(bool),
    Reconnect(bool),
    Loop(LoopView, LoopInputView<A>),
}

/// What a command does.
pub open spec fn commanded<A>(state: DontSpeakView<A>, command: Command<A>) -> Changed<A> {
    match command {
        Command::SettingsChanged(enabled) => settings_changed(state, enabled),
        Command::Reconnect(enabled) => reconnected(state, enabled),
        Command::Loop(connection_loop, input) => {
            let step = loop_step(connection_loop, state, input);
            (step.owner, step.effects)
        },
    }
}

/// A loop that was replaced stays replaced, whatever happens.
pub proof fn lemma_replaced_loop_stays_replaced<A>(
    state: DontSpeakView<A>,
    command: Command<A>,
    generation: usize,
)
    requires
        generation < state.generation < usize::MAX,
    ensures
        generation < commanded(state, command).0.generation,
{
}

/// The connection goes off only where the settings turn it off.
pub proof fn lemma_only_settings_disable<A>(state: DontSpeakView<A>, command: Command<A>)
    requires
        !(state.connection is Disabled),
        command != Command::<A>::SettingsChanged(false),
    ensures
        !(commanded(state, command).0.connection is Disabled),
{
}

/// A connection that is off stays off, and no loop is started, while the
/// settings keep the integration off.
pub proof fn lemma_disabled_stays_off<A>(state: DontSpeakView<A>)
    requires
        state.connection is Disabled,
    ensures
        settings_changed(state, false) == (
            state,
            seq![EffectView::UpdatePalette(visibility(StatusView::Disabled))],
        ),
        reconnected(state, false) == (state, Seq::<EffectView>::empty()),
{
}

/// What the palette shows behind effects.
pub open spec fn palette_after(effects: Seq<EffectView>, palette: Visibility) -> Visibility
    decreases effects.len(),
{
    if effects.len() == 0 {
        palette
    } else {
        match effects.last() {
            EffectView::UpdatePalette(shown) => shown,
            _ => palette_after(effects.drop_last(), palette),
        }
    }
}

proof fn lemma_palette_announced(status: StatusView, palette: Visibility)
    ensures
        palette_after(announced(status), palette) == visibility(status),
{
    reveal_with_fuel(palette_after, 4);
    let effects = announced(status);
    assert(effects.drop_last().drop_last().last() == effects[0]);
}

/// The palette always shows what the status allows.
pub proof fn lemma_palette_follows<A>(
    state: DontSpeakView<A>,
    command: Command<A>,
    palette: Visibility,
)
    requires
        palette == visibility(status_of(state.connection)) || command is SettingsChanged,
    ensures
        palette_after(commanded(state, command).1, palette) == visibility(
            status_of(commanded(state, command).0.connection),
        ),
{
    reveal_with_fuel(palette_after, 2);
    let status = status_of(commanded(state, command).0.connection);
    let effects = commanded(state, command).1;
    lemma_palette_announced(status, palette);
    if effects.len() == 4 {
        if effects.last() is SpawnLoop {
            assert(effects.drop_last() =~= announced(status));
        } else {
            reveal_with_fuel(palette_after, 4);
            assert(effects.drop_last().drop_last().last() == effects[1]);
        }
    }
}

/// A status does not change unless the observers are told.
pub proof fn lemma_changes_are_told<A>(state: DontSpeakView<A>, command: Command<A>)
    ensures
        status_of(commanded(state, command).0.connection) != status_of(state.connection)
            ==> commanded(state, command).1.contains(EffectView::Emit(EventView::StatusChanged)),
{
    let status = status_of(commanded(state, command).0.connection);
    let effects = commanded(state, command).1;
    let told = EffectView::Emit(EventView::StatusChanged);
    if effects.len() == 3 {
        assert(effects[1] == told || command is Reconnect);
    } else if effects.len() == 4 {
        if effects.last() is SpawnLoop {
            assert(effects[1] == told);
        } else {
            assert(effects[2] == told);
        }
    }
}

/// The wait before the next attempt, behind this many failures in a row.
pub open spec fn delays(failures: nat) -> u64
    decreases failures,
{
    if failures == 0 {
        INITIAL_RECONNECT_DELAY
    } else {
        next_delay(delays((failures - 1) as nat))
    }
}

/// The wait doubles with each failure up to the longest one.
pub proof fn lemma_delays(failures: nat)
    ensures
        delays(failures) == if 500 * pow2(failures) < 30_000 {
            500 * pow2(failures)
        } else {
            30_000
        },
        INITIAL_RECONNECT_DELAY <= delays(failures) <= MAX_RECONNECT_DELAY,
    decreases failures,
{
    lemma2_to64();
    if failures > 0 {
        lemma_delays((failures - 1) as nat);
        lemma_pow2_unfold(failures);
    }
}

/// A current loop waits longer behind each attempt that fails or connection
/// that ends, and connecting starts the waits over.
pub proof fn lemma_backoff<A>(
    connection_loop: LoopView,
    owner: DontSpeakView<A>,
    input: LoopInputView<A>,
    failures: nat,
)
    requires
        connection_loop.generation == owner.generation,
        connection_loop.delay == delays(failures),
    ensures
        input is Failed || input is Ended ==> {
            let step = loop_step(connection_loop, owner, input);
            step.action == LoopAction::Wait(delays(failures)) && step.connection_loop.delay
                == delays(failures + 1)
        },
        input is Subscribed ==> loop_step(connection_loop, owner, input).connection_loop.delay
            == delays(0),
{
}

// --- What commands achieve ---

/// Of the actions in the palette those that need the daemon are shown exactly
/// while it is connected, and the others exactly while the integration is on.
pub proof fn lemma_palette_shows_what_works(status: StatusView)
    ensures
        visibility(status).toggle_dictation <==> status is Connected,
        visibility(status).stop_speech <==> status is Connected,
        visibility(status).open_voice_settings <==> !(status is Disabled),
        visibility(status).reconnect <==> !(status is Disabled),
{
}

/// The status tells which state the connection is in, and an error's message as
/// it is.
pub proof fn lemma_status_tells_the_connection<A>(connection: ConnectionView<A>)
    ensures
        status_of(connection) is Disabled <==> connection is Disabled,
        status_of(connection) is Connecting <==> connection is Connecting,
        status_of(connection) is Connected <==> connection is Connected,
        status_of(connection) is Absent <==> connection is Absent,
        forall|message: Seq<char>|
            status_of(connection) == StatusView::Error(message) <==> connection
                == ConnectionView::<A>::Error(message),
{
}

/// While the integration is on, a reconnect starts over from every state: the
/// connection is connecting, under a number that was not the last one, the
/// observers are told, and behind all else a loop of that number is started.
/// While the integration is off, it does nothing.
pub proof fn lemma_reconnect_starts_over<A>(state: DontSpeakView<A>)
    ensures
        ({
            let (next, effects) = reconnected(state, true);
            &&& next.connection == ConnectionView::<A>::Connecting
            &&& next.generation != state.generation
            &&& state.generation < usize::MAX ==> next.generation == state.generation + 1
            &&& state.generation == usize::MAX ==> next.generation == 0
            &&& effects.len() == 4
            &&& effects[0] == EffectView::UpdatePalette(
                Visibility {
                    toggle_dictation: false,
                    stop_speech: false,
                    open_voice_settings: true,
                    reconnect: true,
                },
            )
            &&& effects[1] == EffectView::Emit(EventView::StatusChanged)
            &&& effects[2] == EffectView::Notify
            &&& effects[3] == EffectView::SpawnLoop(next.generation)
        }),
        reconnected(state, false).0 == state,
        reconnected(state, false).1.len() == 0,
{
}

/// The settings are followed from every state. Turned on, a connection that is
/// off is started just as a reconnect starts it. Turned off, a connection that
/// is on goes off under another number: its loop is dropped before all else, all
/// actions leave the palette, and the observers are told. Where the settings
/// say what is so already, nothing but the palette is set again.
pub proof fn lemma_settings_are_followed<A>(state: DontSpeakView<A>)
    ensures
        state.connection is Disabled ==> settings_changed(state, true) == reconnected(state, true),
        !(state.connection is Disabled) ==> {
            let (next, effects) = settings_changed(state, false);
            &&& next.connection == ConnectionView::<A>::Disabled
            &&& next.generation != state.generation
            &&& effects.len() == 4
            &&& effects[0] == EffectView::DropLoop
            &&& effects[1] == EffectView::UpdatePalette(
                Visibility {
                    toggle_dictation: false,
                    stop_speech: false,
                    open_voice_settings: false,
                    reconnect: false,
                },
            )
            &&& effects[2] == EffectView::Emit(EventView::StatusChanged)
            &&& effects[3] == EffectView::Notify
        },
        forall|enabled: bool|
            enabled != (state.connection is Disabled) ==> {
                let (next, effects) = #[trigger] settings_changed(state, enabled);
                &&& next == state
                &&& effects.len() == 1
                &&& effects[0] == EffectView::UpdatePalette(
                    visibility(status_of(state.connection)),
                )
            },
        initial::<A>().connection is Disabled,
{
}

/// What a current loop does about each thing that happens to it. No loop
/// changes the number under which it runs.
pub proof fn lemma_current_loop<A>(
    connection_loop: LoopView,
    owner: DontSpeakView<A>,
    input: LoopInputView<A>,
)
    requires
        connection_loop.generation == owner.generation,
    ensures
        ({
            let step = loop_step(connection_loop, owner, input);
            let doubled = 2 * connection_loop.delay;
            let longer = if doubled < 30_000 {
                doubled
            } else {
                30_000
            };
            let connection = step.owner.connection;
            &&& step.owner.generation == owner.generation
            &&& step.connection_loop.generation == connection_loop.generation
            &&& match input {
                LoopInputView::Started { forced_error: true } => {
                    &&& step.action is Exit
                    &&& connection == ConnectionView::<A>::Error(
                        "Forced error for testing (ZED_FORCE_DONTSPEAK_ERROR)"@,
                    )
                },
                LoopInputView::Started { forced_error: false } | LoopInputView::Waited => {
                    &&& step.action is Subscribe
                    &&& step.owner == owner
                    &&& step.connection_loop == connection_loop
                    &&& step.effects.len() == 0
                },
                LoopInputView::Subscribed { acks } => {
                    &&& step.action is NextEvent
                    &&& connection == (ConnectionView::Connected { acks })
                    &&& step.connection_loop.delay == 500
                },
                LoopInputView::Failed { absent, message } => {
                    &&& step.action == LoopAction::Wait(connection_loop.delay)
                    &&& connection == if absent {
                        ConnectionView::<A>::Absent
                    } else {
                        ConnectionView::<A>::Error(message)
                    }
                    &&& step.connection_loop.delay == longer
                },
                LoopInputView::Received(event) => {
                    &&& step.action is NextEvent
                    &&& step.owner == owner
                    &&& step.connection_loop == connection_loop
                    &&& step.effects.len() == 1
                    &&& step.effects[0] == EffectView::Emit(EventView::FrontendEvent(event))
                },
                LoopInputView::Ended => {
                    &&& step.action == LoopAction::Wait(connection_loop.delay)
                    &&& connection == ConnectionView::<A>::Connecting
                    &&& step.connection_loop.delay == longer
                },
            }
            &&& !(input is Received) && !(input is Waited) && input
                != (LoopInputView::<A>::Started { forced_error: false }) ==> {
                &&& step.effects.len() == 3
                &&& step.effects[0] == EffectView::UpdatePalette(visibility(status_of(connection)))
                &&& step.effects[1] == EffectView::Emit(EventView::StatusChanged)
                &&& step.effects[2] == EffectView::Notify
            }
        }),
{
}

/// What a status and an effect say is all that they hold.
pub proof fn lemma_nothing_is_lost(status: Status, effects: Seq<Effect>, i: int)
    ensures
        match status {
            Status::Disabled => status@ is Disabled,
            Status::Connecting => status@ is Connecting,
            Status::Connected => status@ is Connected,
            Status::Error(error) => status@ == StatusView::Error(error@),
            Status::Absent => status@ is Absent,
        },
        effect_views(effects).len() == effects.len(),
        0 <= i < effects.len() ==> match effects[i] {
            Effect::UpdatePalette(shown) => effect_views(effects)[i] == EffectView::UpdatePalette(
                shown,
            ),
            Effect::Emit(Event::StatusChanged) => effect_views(effects)[i] == EffectView::Emit(
                EventView::StatusChanged,
            ),
            Effect::Emit(Event::FrontendEvent(received)) => effect_views(effects)[i]
                == EffectView::Emit(EventView::FrontendEvent(received@)),
            Effect::Notify => effect_views(effects)[i] is Notify,
            Effect::SpawnLoop(generation) => effect_views(effects)[i] == EffectView::SpawnLoop(
                generation,
            ),
            Effect::DropLoop => effect_views(effects)[i] is DropLoop,
        },
{
}

} // verus!
