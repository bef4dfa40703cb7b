use agent_client_protocol::v1::schema::ContentBlock;
use dontspeak::narrator::{
    agent_has_hook_wiring, assistant_message_text, narration_block, narration_spec, Chunk, Entry,
    Thread, ThreadEvent, ThreadNarrator, Timers, EMBEDDED_NARRATION_SPEC, SEND_INTERVAL,
};
use dontspeak::protocol::Request;
use dontspeak::settings::{DontSpeakSettings, NarratePanelAgents};
use dontspeak::sink::NarrationSink;
use std::cell::RefCell;
use std::rc::Rc;

const HOOKED: &str = "hooked-acp";
const CODEX_ID: &str = "codex-acp";

struct RecordingSink {
    requests: Rc<RefCell<Vec<Request>>>,
    available: Rc<RefCell<bool>>,
}

impl NarrationSink for RecordingSink {
    type Context = ();

    fn is_available(&self, _cx: &()) -> bool {
        *self.available.borrow()
    }

    fn send(&self, request: Request, _cx: &mut ()) {
        self.requests.borrow_mut().push(request);
    }
}

/// A thread with its narrator, timers and clock.
struct NarratedThread {
    thread: Thread,
    session: String,
    settings: DontSpeakSettings,
    narrator: Option<ThreadNarrator<RecordingSink>>,
    requests: Rc<RefCell<Vec<Request>>>,
    available: Rc<RefCell<bool>>,
    /// The entries that are due: when, which, and under which generation.
    timers: Vec<(u64, usize, u64)>,
    clock: u64,
    spec_blocks: usize,
}

fn wired_agents() -> Vec<String> {
    vec![HOOKED.to_string(), CODEX_ID.to_string()]
}

fn settings(narrate: NarratePanelAgents) -> DontSpeakSettings {
    DontSpeakSettings {
        enabled: true,
        narrate_panel_agents: narrate,
        status_bar_button: true,
    }
}

fn build(narrate: NarratePanelAgents, agent_id: &str) -> NarratedThread {
    let settings = settings(narrate);
    let thread = Thread {
        entries: Vec::new(),
        generating: false,
    };
    let requests = Rc::new(RefCell::new(Vec::new()));
    let available = Rc::new(RefCell::new(true));
    let (narrator, told) = ThreadNarrator::new(
        "sess-1".to_string(),
        agent_id,
        &wired_agents(),
        &thread,
        RecordingSink {
            requests: requests.clone(),
            available: available.clone(),
        },
        &settings,
        &mut (),
    );
    NarratedThread {
        thread,
        session: "sess-1".to_string(),
        settings,
        narrator: Some(narrator),
        requests,
        available,
        timers: Vec::new(),
        clock: 0,
        spec_blocks: usize::from(told),
    }
}

impl NarratedThread {
    fn emit(&mut self, event: ThreadEvent) -> Timers {
        let narrator = self.narrator.as_mut().unwrap();
        let timers = narrator.handle_thread_event(&self.thread, event, &self.settings, &mut ());
        if timers.cancel {
            self.timers.clear();
        }
        if let Some(ix) = timers.start {
            self.timers
                .push((self.clock + SEND_INTERVAL, ix, narrator.generation()));
        }
        timers
    }

    fn advance_clock(&mut self, milliseconds: u64) {
        self.clock += milliseconds;
        let clock = self.clock;
        let due: Vec<_> = self.timers.iter().filter(|t| t.0 <= clock).cloned().collect();
        self.timers.retain(|t| t.0 > clock);
        for (_, ix, generation) in due {
            self.narrator.as_mut().unwrap().timer_fired(
                &self.thread,
                ix,
                generation,
                &self.settings,
                &mut (),
            );
        }
    }

    /// The user submits a prompt.
    fn send_raw(&mut self) {
        self.thread.entries.push(Entry::Other);
        self.emit(ThreadEvent::NewEntry);
        self.thread.generating = true;
        self.emit(ThreadEvent::StatusChanged);
    }

    fn agent_chunk(&mut self, chunk: Chunk) {
        if let Some(Entry::AssistantMessage(chunks)) = self.thread.entries.last_mut() {
            chunks.push(chunk);
            let ix = self.thread.entries.len() - 1;
            self.emit(ThreadEvent::EntryUpdated(ix));
        } else {
            self.thread
                .entries
                .push(Entry::AssistantMessage(vec![chunk]));
            self.emit(ThreadEvent::NewEntry);
        }
    }

    fn agent_says(&mut self, text: &str) {
        self.agent_chunk(Chunk::Message(text.to_string()));
    }

    fn end_turn(&mut self, event: ThreadEvent) {
        self.thread.generating = false;
        self.emit(ThreadEvent::StatusChanged);
        self.emit(event);
    }

    /// The agent refuses: the thread goes back behind the user's message.
    fn refuse(&mut self) {
        self.thread.generating = false;
        self.emit(ThreadEvent::StatusChanged);
        self.thread.entries.clear();
        self.emit(ThreadEvent::EntriesRemoved);
        self.emit(ThreadEvent::Refusal);
    }

    fn drop_narrator(&mut self) {
        if let Some(mut narrator) = self.narrator.take() {
            narrator.release(&self.settings, &mut ());
        }
    }

    fn narrate_batches(&self) -> Vec<(String, String, bool)> {
        self.requests
            .borrow()
            .iter()
            .filter_map(|request| match request {
                Request::NarrateBatch {
                    key,
                    text,
                    is_final,
                    ..
                } => Some((key.clone(), text.clone(), *is_final)),
                _ => None,
            })
            .collect()
    }
}

#[test]
fn test_streamed_blockquote_narrates_nonfinal_then_final() {
    let mut fixture = build(NarratePanelAgents::All, "stub");
    let session = fixture.session.clone();

    fixture.send_raw();
    // Submitting the prompt marks this session as the active one.
    assert_eq!(
        fixture.requests.borrow().first(),
        Some(&Request::MarkActive {
            session: Some(session.clone()),
            synthetic: false,
        })
    );

    fixture.agent_says("> Hello world.");
    fixture.advance_clock(SEND_INTERVAL * 2);

    let expected_key = format!("{session}#0#1");
    assert_eq!(
        fixture.narrate_batches(),
        [(expected_key.clone(), "> Hello world.".into(), false)]
    );

    fixture.end_turn(ThreadEvent::Stopped);
    assert_eq!(
        fixture.narrate_batches(),
        [
            (expected_key.clone(), "> Hello world.".into(), false),
            (expected_key, "> Hello world.".into(), true),
        ]
    );
}

#[test]
fn test_truncation_bumps_the_key_generation() {
    let mut fixture = build(NarratePanelAgents::All, "stub");
    let session = fixture.session.clone();

    // Turn 1 streams, then the agent refuses: the thread goes back past the
    // user's message, and nothing must be narrated again.
    fixture.send_raw();
    fixture.agent_says("> One.");
    fixture.advance_clock(SEND_INTERVAL * 2);
    fixture.refuse();

    // Turn 2 reuses entry index 1: the generation keeps its key distinct from
    // turn 1's.
    fixture.send_raw();
    fixture.agent_says("> Two.");
    fixture.advance_clock(SEND_INTERVAL * 2);
    fixture.end_turn(ThreadEvent::Stopped);

    assert_eq!(
        fixture.narrate_batches(),
        [
            (format!("{session}#0#1"), "> One.".into(), false),
            (format!("{session}#1#1"), "> Two.".into(), false),
            (format!("{session}#1#1"), "> Two.".into(), true),
        ]
    );
}

#[test]
fn test_error_terminated_turn_still_finalizes() {
    let mut fixture = build(NarratePanelAgents::All, "stub");
    let session = fixture.session.clone();

    fixture.send_raw();
    fixture.agent_says("> Partial thought.");
    // The scheduled send is still pending when the turn dies: finalizing must
    // still deliver the text.
    fixture.end_turn(ThreadEvent::Error);

    assert_eq!(
        fixture.narrate_batches(),
        [(format!("{session}#0#1"), "> Partial thought.".into(), true)]
    );
}

#[test]
fn test_thought_only_turn_is_silent() {
    let mut fixture = build(NarratePanelAgents::All, "stub");

    fixture.send_raw();
    fixture.agent_chunk(Chunk::Thought("> not spoken".to_string()));
    fixture.advance_clock(SEND_INTERVAL * 2);
    fixture.end_turn(ThreadEvent::Stopped);

    assert_eq!(fixture.narrate_batches(), []);
}

#[test]
fn test_auto_skips_hook_wired_agents_entirely() {
    let mut fixture = build(NarratePanelAgents::Auto, HOOKED);
    fixture.send_raw();
    fixture.agent_says("> Hook-narrated already.");
    fixture.advance_clock(SEND_INTERVAL * 2);
    fixture.end_turn(ThreadEvent::Stopped);

    // Not even the session's lifecycle: the hooks own it.
    fixture.drop_narrator();
    assert!(
        fixture.requests.borrow().is_empty(),
        "expected no requests, got {:?}",
        fixture.requests.borrow()
    );

    // The same setting narrates an agent with no hook wiring.
    let mut fixture = build(NarratePanelAgents::Auto, "gemini");
    fixture.send_raw();
    fixture.agent_says("> Spoken.");
    fixture.advance_clock(SEND_INTERVAL * 2);
    fixture.end_turn(ThreadEvent::Stopped);
    assert_eq!(fixture.narrate_batches().len(), 2);
}

#[test]
fn test_none_setting_disables_narration() {
    let mut fixture = build(NarratePanelAgents::Never, "stub");
    fixture.send_raw();
    fixture.agent_says("> Silent.");
    fixture.advance_clock(SEND_INTERVAL * 2);
    fixture.end_turn(ThreadEvent::Stopped);

    assert!(
        fixture.requests.borrow().is_empty(),
        "expected no requests, got {:?}",
        fixture.requests.borrow()
    );
}

#[test]
fn test_dropping_the_narrator_ends_the_session() {
    let mut fixture = build(NarratePanelAgents::All, "stub");
    let session = fixture.session.clone();

    fixture.drop_narrator();

    assert_eq!(
        fixture.requests.borrow().last(),
        Some(&Request::SessionEnd {
            session: Some(session),
        })
    );
}

#[test]
fn test_narration_spec_is_queued_as_request_only_context() {
    let fixture = build(NarratePanelAgents::All, "stub");
    assert_eq!(fixture.spec_blocks, 1);

    // A hook-wired agent under `auto` gets none: its hook injects one.
    let fixture = build(NarratePanelAgents::Auto, CODEX_ID);
    assert_eq!(fixture.spec_blocks, 0);
}

#[test]
fn the_users_own_words_go_before_the_embedded_ones() {
    assert_eq!(narration_spec(Some("Speak up.".into())), "Speak up.");
    assert_eq!(narration_spec(Some(" \n".into())), EMBEDDED_NARRATION_SPEC);
    assert_eq!(narration_spec(None), EMBEDDED_NARRATION_SPEC);
    assert!(EMBEDDED_NARRATION_SPEC.starts_with("# Narrate\nOnly `>` lines are spoken"));
    match narration_block(Some("Speak up.".into())) {
        ContentBlock::Text(content) => {
            assert_eq!(content.text, "Speak up.");
            assert!(content.annotations.is_none());
            assert!(content.meta.is_none());
        }
        other => panic!("expected text, got {other:?}"),
    }
}

#[test]
fn message_chunks_are_joined_by_blank_lines() {
    let thread = Thread {
        entries: vec![
            Entry::Other,
            Entry::AssistantMessage(vec![
                Chunk::Thought("hm".into()),
                Chunk::Message("> a".into()),
                Chunk::Message("".into()),
                Chunk::Thought("hm".into()),
                Chunk::Message("> b".into()),
            ]),
        ],
        generating: false,
    };
    assert_eq!(assistant_message_text(&thread, 0), None);
    assert_eq!(
        assistant_message_text(&thread, 1),
        Some("> a\n\n> b".to_string())
    );
    assert_eq!(assistant_message_text(&thread, 2), None);
}

#[test]
fn hook_wiring_goes_by_name() {
    let wired = wired_agents();
    assert!(agent_has_hook_wiring(HOOKED, &wired));
    assert!(agent_has_hook_wiring(CODEX_ID, &wired));
    assert!(agent_has_hook_wiring("My-Qwen-Coder", &wired));
    assert!(!agent_has_hook_wiring("gemini", &wired));
    assert!(!agent_has_hook_wiring("Codex-ACP", &wired));
}

#[test]
fn updates_ride_along_with_the_send_that_is_due() {
    let mut fixture = build(NarratePanelAgents::All, "stub");
    fixture.send_raw();
    fixture.agent_says("> One");
    fixture.advance_clock(SEND_INTERVAL - 1);
    fixture.agent_says("> two");
    assert_eq!(fixture.timers.len(), 1);
    fixture.advance_clock(1);
    assert_eq!(
        fixture.narrate_batches(),
        [("sess-1#0#1".to_string(), "> One\n\n> two".to_string(), false)]
    );
    // The next update is due anew.
    fixture.agent_says("> three");
    assert_eq!(fixture.timers.len(), 1);
}

#[test]
fn one_batch_is_sent_per_window() {
    let mut fixture = build(NarratePanelAgents::All, "stub");
    fixture.send_raw();
    for _ in 0..6 {
        fixture.agent_says("> more");
        fixture.advance_clock(SEND_INTERVAL / 3);
    }
    let batches = fixture.narrate_batches();
    assert_eq!(batches.len(), 2);
    assert!(batches.iter().all(|(key, _, is_final)| key == "sess-1#0#1" && !is_final));
    assert_eq!(batches[0].1, "> more\n\n> more\n\n> more");
    assert_eq!(batches[1].1.matches("> more").count(), 6);
}

#[test]
fn a_turn_is_flushed_in_the_order_of_its_entries() {
    let mut fixture = build(NarratePanelAgents::All, "stub");
    fixture.thread.entries = vec![
        Entry::AssistantMessage(vec![Chunk::Message("> a".into())]),
        Entry::AssistantMessage(vec![Chunk::Message(" ".into())]),
        Entry::AssistantMessage(vec![Chunk::Message("> c".into())]),
    ];
    fixture.emit(ThreadEvent::EntryUpdated(2));
    fixture.emit(ThreadEvent::EntryUpdated(0));
    fixture.emit(ThreadEvent::EntryUpdated(1));
    fixture.emit(ThreadEvent::Stopped);
    assert_eq!(
        fixture.narrate_batches(),
        [
            ("sess-1#0#0".to_string(), "> a".to_string(), false),
            ("sess-1#0#2".to_string(), "> c".to_string(), true),
        ]
    );
    // To end the turn again sends nothing.
    fixture.emit(ThreadEvent::Stopped);
    assert_eq!(fixture.narrate_batches().len(), 2);
}

#[test]
fn nothing_is_sent_while_the_daemon_cannot_be_reached() {
    let mut fixture = build(NarratePanelAgents::All, "stub");
    *fixture.available.borrow_mut() = false;
    fixture.send_raw();
    fixture.agent_says("> lost");
    fixture.end_turn(ThreadEvent::Stopped);
    fixture.drop_narrator();
    assert!(fixture.requests.borrow().is_empty());
}

#[test]
fn a_timer_of_an_earlier_generation_sends_nothing() {
    let mut fixture = build(NarratePanelAgents::All, "stub");
    fixture.send_raw();
    fixture.agent_says("> One.");
    fixture.emit(ThreadEvent::EntriesRemoved);
    fixture.narrator.as_mut().unwrap().timer_fired(
        &fixture.thread,
        1,
        0,
        &fixture.settings,
        &mut (),
    );
    assert_eq!(fixture.narrate_batches(), []);
}

#[test]
fn retired_keys_do_not_come_back() {
    let mut fixture = build(NarratePanelAgents::All, "stub");
    for _ in 0..3 {
        fixture.send_raw();
        fixture.agent_says("> Again.");
        fixture.end_turn(ThreadEvent::Stopped);
        fixture.thread.entries.clear();
        fixture.emit(ThreadEvent::EntriesRemoved);
    }
    assert_eq!(
        fixture
            .narrate_batches()
            .into_iter()
            .map(|(key, _, _)| key)
            .collect::<Vec<_>>(),
        ["sess-1#0#1", "sess-1#1#1", "sess-1#2#1"]
    );
}

#[test]
fn a_growing_message_keeps_what_it_said() {
    let mut fixture = build(NarratePanelAgents::All, "stub");
    fixture.send_raw();
    let mut said = String::new();
    for chunk in ["> a", "> b", "> c"] {
        fixture.agent_says(chunk);
        let text = assistant_message_text(&fixture.thread, 1).unwrap();
        assert!(text.starts_with(&said));
        said = text;
    }
    assert_eq!(said, "> a\n\n> b\n\n> c");
}

#[test]
fn events_that_narration_does_not_know_do_nothing() {
    let mut fixture = build(NarratePanelAgents::All, "stub");
    assert_eq!(
        fixture.emit(ThreadEvent::Other),
        Timers {
            cancel: false,
            start: None
        }
    );
    assert_eq!(
        fixture.emit(ThreadEvent::NewEntry),
        Timers {
            cancel: false,
            start: None
        }
    );
    assert_eq!(
        fixture.emit(ThreadEvent::EntryUpdated(5)),
        Timers {
            cancel: false,
            start: None
        }
    );
    assert!(fixture.requests.borrow().is_empty());
}
