use dontspeak::client::ReceivedEvent;
use dontspeak::connection::{
    action_visibilities, attempt_failed, ConnectionLoop, DontSpeak, Effect, Event, LoopAction,
    LoopInput, Status, Visibility, INITIAL_RECONNECT_DELAY, MAX_RECONNECT_DELAY,
};
use dontspeak::protocol::FrontendEvent;
use std::io::ErrorKind;

type Connection = DontSpeak<u32>;

const ALL_HIDDEN: Visibility = Visibility {
    toggle_dictation: false,
    stop_speech: false,
    open_voice_settings: false,
    reconnect: false,
};

const CONNECTED_ACTIONS_HIDDEN: Visibility = Visibility {
    toggle_dictation: false,
    stop_speech: false,
    open_voice_settings: true,
    reconnect: true,
};

const ALL_SHOWN: Visibility = Visibility {
    toggle_dictation: true,
    stop_speech: true,
    open_voice_settings: true,
    reconnect: true,
};

/// What follows a status that shows these actions.
fn announced(shown: Visibility) -> Vec<Effect> {
    vec![
        Effect::UpdatePalette(shown),
        Effect::Emit(Event::StatusChanged),
        Effect::Notify,
    ]
}

/// A connection with the loops that run for it, and no daemon to connect to.
struct Runner {
    dontspeak: Connection,
    current: Option<(ConnectionLoop, LoopAction)>,
    palette: Option<Visibility>,
}

impl Runner {
    fn new(enabled: bool) -> Self {
        let (dontspeak, effects) = Connection::new(enabled);
        let mut this = Self {
            dontspeak,
            current: None,
            palette: None,
        };
        this.apply(effects);
        this
    }

    fn apply(&mut self, effects: Vec<Effect>) {
        for effect in effects {
            match effect {
                Effect::UpdatePalette(shown) => self.palette = Some(shown),
                Effect::SpawnLoop(generation) => {
                    let mut connection_loop = ConnectionLoop::new(generation);
                    let (action, effects) = connection_loop.step(
                        &mut self.dontspeak,
                        LoopInput::Started {
                            forced_error: false,
                        },
                    );
                    self.current = Some((connection_loop, action));
                    self.apply(effects);
                }
                Effect::DropLoop => self.current = None,
                Effect::Emit(_) | Effect::Notify => {}
            }
        }
    }

    fn set_enabled(&mut self, enabled: bool) {
        let effects = self.dontspeak.handle_settings_changed(enabled);
        self.apply(effects);
    }

    /// Runs the loop until it waits: every attempt finds no socket.
    fn run_until_parked(&mut self) {
        while let Some((mut connection_loop, LoopAction::Subscribe)) = self.current.take() {
            let error = std::io::Error::from(ErrorKind::NotFound).into();
            let (action, effects) =
                connection_loop.step(&mut self.dontspeak, attempt_failed(&error));
            self.current = Some((connection_loop, action));
            self.apply(effects);
        }
    }
}

#[test]
fn test_disabled_by_settings_never_connects() {
    let mut runner = Runner::new(false);
    assert_eq!(runner.dontspeak.status(), Status::Disabled);
    runner.run_until_parked();
    assert_eq!(runner.dontspeak.status(), Status::Disabled);
    assert!(runner.current.is_none());
}

#[test]
fn test_starting_disabled_hides_all_palette_actions() {
    let runner = Runner::new(false);
    let shown = runner.palette.unwrap();
    assert!(!shown.toggle_dictation);
    assert!(!shown.stop_speech);
    assert!(!shown.open_voice_settings);
    assert!(!shown.reconnect);
}

#[test]
fn test_absent_daemon_degrades_silently() {
    let mut runner = Runner::new(true);
    assert_eq!(runner.dontspeak.status(), Status::Connecting);
    runner.run_until_parked();
    assert_eq!(runner.dontspeak.status(), Status::Absent);

    // Disabling tears the connection loop down.
    runner.set_enabled(false);
    runner.run_until_parked();
    assert_eq!(runner.dontspeak.status(), Status::Disabled);

    // Re-enabling starts it again.
    runner.set_enabled(true);
    runner.run_until_parked();
    assert_eq!(runner.dontspeak.status(), Status::Absent);
}

#[test]
fn a_start_announces_the_status_and_spawns_the_loop() {
    let (mut dontspeak, effects) = Connection::new(true);
    let mut expected = announced(CONNECTED_ACTIONS_HIDDEN);
    expected.push(Effect::SpawnLoop(1));
    assert_eq!(effects, expected);

    // A settings change that does not concern the connection only brings the
    // palette up to date.
    assert_eq!(
        dontspeak.handle_settings_changed(true),
        vec![Effect::UpdatePalette(CONNECTED_ACTIONS_HIDDEN)]
    );

    let mut expected = vec![Effect::DropLoop];
    expected.extend(announced(ALL_HIDDEN));
    assert_eq!(dontspeak.handle_settings_changed(false), expected);
    assert_eq!(dontspeak.reconnect(false), vec![]);
    assert_eq!(dontspeak.status(), Status::Disabled);
}

#[test]
fn a_subscription_carries_events_and_acks() {
    let (mut dontspeak, _) = Connection::new(true);
    assert_eq!(dontspeak.ack_deliver(7, true), None);
    let mut connection_loop = ConnectionLoop::new(1);
    let (action, effects) =
        connection_loop.step(&mut dontspeak, LoopInput::Subscribed { acks: 42 });
    assert_eq!(action, LoopAction::NextEvent);
    assert_eq!(effects, announced(ALL_SHOWN));
    assert!(dontspeak.status().is_connected());
    assert_eq!(dontspeak.ack_deliver(7, true), Some((&42, (7, true))));

    let event = ReceivedEvent {
        seq: 3,
        event: FrontendEvent::Cancelled,
    };
    let (action, effects) =
        connection_loop.step(&mut dontspeak, LoopInput::Received(event.clone()));
    assert_eq!(action, LoopAction::NextEvent);
    assert_eq!(effects, vec![Effect::Emit(Event::FrontendEvent(event))]);

    let (action, effects) = connection_loop.step(&mut dontspeak, LoopInput::Ended);
    assert_eq!(action, LoopAction::Wait(INITIAL_RECONNECT_DELAY));
    assert_eq!(effects, announced(CONNECTED_ACTIONS_HIDDEN));
    assert_eq!(dontspeak.status(), Status::Connecting);
    assert_eq!(dontspeak.ack_deliver(7, true), None);
}

#[test]
fn a_stale_loop_changes_nothing() {
    let (mut dontspeak, _) = Connection::new(true);
    let mut stale = ConnectionLoop::new(1);
    dontspeak.reconnect(true);
    assert_eq!(
        stale.step(&mut dontspeak, LoopInput::Subscribed { acks: 1 }),
        (LoopAction::Exit, vec![])
    );
    assert_eq!(
        stale.step(
            &mut dontspeak,
            LoopInput::Received(ReceivedEvent {
                seq: 1,
                event: FrontendEvent::Refused
            })
        ),
        (LoopAction::Exit, vec![])
    );
    assert_eq!(
        stale.step(&mut dontspeak, LoopInput::Ended),
        (LoopAction::Exit, vec![])
    );
    assert_eq!(
        stale.step(&mut dontspeak, LoopInput::Waited),
        (LoopAction::Subscribe, vec![])
    );
    assert_eq!(dontspeak.status(), Status::Connecting);
}

#[test]
fn a_replaced_loop_stays_replaced() {
    let (mut dontspeak, _) = Connection::new(true);
    let mut replaced = ConnectionLoop::new(1);
    dontspeak.handle_settings_changed(false);
    dontspeak.handle_settings_changed(true);
    dontspeak.reconnect(true);
    dontspeak.reconnect(false);
    assert_eq!(
        replaced.step(&mut dontspeak, LoopInput::Subscribed { acks: 1 }),
        (LoopAction::Exit, vec![])
    );
    assert_eq!(dontspeak.status(), Status::Connecting);
    assert_eq!(dontspeak.ack_deliver(1, true), None);
    let mut current = ConnectionLoop::new(4);
    let (action, _) = current.step(&mut dontspeak, LoopInput::Subscribed { acks: 4 });
    assert_eq!(action, LoopAction::NextEvent);
    assert!(dontspeak.status().is_connected());
}

#[test]
fn waits_double_up_to_the_longest_and_start_over_when_connected() {
    assert_eq!(INITIAL_RECONNECT_DELAY, 500);
    assert_eq!(MAX_RECONNECT_DELAY, 30_000);
    let (mut dontspeak, _) = Connection::new(true);
    let mut connection_loop = ConnectionLoop::new(1);
    for expected in [500, 1_000, 2_000, 4_000, 8_000, 16_000, 30_000, 30_000] {
        let (action, _) = connection_loop.step(
            &mut dontspeak,
            LoopInput::Failed {
                absent: true,
                message: String::new(),
            },
        );
        assert_eq!(action, LoopAction::Wait(expected));
        let (action, _) = connection_loop.step(&mut dontspeak, LoopInput::Waited);
        assert_eq!(action, LoopAction::Subscribe);
    }
    connection_loop.step(&mut dontspeak, LoopInput::Subscribed { acks: 0 });
    let (action, _) = connection_loop.step(&mut dontspeak, LoopInput::Ended);
    assert_eq!(action, LoopAction::Wait(500));
}

#[test]
fn a_real_failure_is_an_error_with_its_causes() {
    let (mut dontspeak, _) = Connection::new(true);
    let mut connection_loop = ConnectionLoop::new(1);
    let error = anyhow::Error::msg("permission denied").context("connecting");
    connection_loop.step(&mut dontspeak, attempt_failed(&error));
    assert_eq!(
        dontspeak.status(),
        Status::Error("connecting: permission denied".into())
    );
}

#[test]
fn a_forced_error_ends_the_loop() {
    let (mut dontspeak, _) = Connection::new(true);
    let mut connection_loop = ConnectionLoop::new(1);
    let (action, effects) = connection_loop.step(
        &mut dontspeak,
        LoopInput::Started { forced_error: true },
    );
    assert_eq!(action, LoopAction::Exit);
    assert_eq!(effects, announced(CONNECTED_ACTIONS_HIDDEN));
    assert_eq!(
        dontspeak.status(),
        Status::Error("Forced error for testing (ZED_FORCE_DONTSPEAK_ERROR)".into())
    );
}

#[test]
fn the_palette_shows_what_the_status_allows() {
    assert_eq!(action_visibilities(&Status::Disabled), ALL_HIDDEN);
    assert_eq!(action_visibilities(&Status::Connected), ALL_SHOWN);
    for status in [
        Status::Connecting,
        Status::Absent,
        Status::Error("x".into()),
    ] {
        assert_eq!(action_visibilities(&status), CONNECTED_ACTIONS_HIDDEN);
    }
}

#[test]
fn speech_is_stopped_for_all_sessions() {
    let (dontspeak, _) = Connection::new(true);
    assert_eq!(dontspeak.stop_speech().0, "{\"cmd\":\"stop_speech\"}\n");
}
