//! Narration of agent threads through the daemon.
//!
//! A [`ThreadNarrator`] follows one agent thread and hands each assistant
//! message's text, as far as it has grown, to the daemon's narration. The
//! daemon owns the narration itself and drops what it has spoken already, so
//! sending the same text again does no harm; this side throttles and keys the
//! batches.
//!
//! Batch keys are `{session}#{generation}#{entry}`. Truncation reuses entry
//! indices, so it moves on to another generation. A turn is finalized where it
//! stops, fails or is refused.
//!
//! Nothing is sent unless the settings allow the thread's agent and the daemon
//! can be reached.

use crate::index_set::{
    ascending, lemma_with_index, lemma_without_index, with_index, without_index, IndexSet,
};
use crate::protocol::{Request, RequestView};
use crate::settings::{DontSpeakSettings, NarratePanelAgents};
use crate::sink::{NarrationSink, RecordedSink, SinkCall};
use crate::text::{
    ascii_lower, ascii_lower_text, blank, decimal, decimal_text, holds, holds_at,
    holds_ignoring_ascii_case, is_blank, is_digit, lemma_decimal_injective,
    lemma_decimal_is_digits, same_text,
};
use agent_client_protocol::v1::schema::{ContentBlock, TextContent};
use vstd::prelude::*;

verus! {

/// How long an entry's updates are gathered before its text is sent, in
/// milliseconds. The first update starts the wait and later ones ride along,
/// so a reply that streams without a pause is narrated while it streams.
pub const SEND_INTERVAL: u64 = 300;

/// What agents are told about narration where the user has no words of their
/// own for it.
pub const EMBEDDED_NARRATION_SPEC: &'static str = r#"# Narrate
Only `>` lines are spoken (rest silent). Lead every reply with a `>` digest: one line per point, plain speech, no markdown/code/URLs/paths, say IDs as words. Any pick-one options → speak each as the LAST `>` lines, for voice reply.
"#;

// --- Threads ---

/// A piece of an assistant message, in Markdown.
#[derive(Debug, PartialEq, Eq)]
pub enum Chunk {
    Message(String),
    Thought(String),
}

/// An entry of a thread, as far as narration reads it.
#[derive(Debug, PartialEq, Eq)]
pub enum Entry {
    AssistantMessage(Vec<Chunk>),
    Other,
}

/// A thread, as far as narration reads it.
#[derive(Debug, PartialEq, Eq)]
pub struct Thread {
    pub entries: Vec<Entry>,
    /// Whether the agent is at work.
    pub generating: bool,
}

/// What a thread tells its observers.
#[derive(Clone, Copy, Debug, PartialEq, Eq, Structural)]
pub enum ThreadEvent {
    /// An entry was added at the end.
    NewEntry,
    /// The entry with this index changed.
    EntryUpdated(usize),
    /// Entries were taken from the end.
    EntriesRemoved,
    /// The turn is over.
    Stopped,
    /// The turn failed.
    Error,
    /// The agent refused.
    Refusal,
    /// The agent went to work, or stopped.
    StatusChanged,
    /// Anything else.
    Other,
}

/// What a [`Chunk`] holds.
pub enum ChunkView {
    Message(Seq<char>),
    Thought(Seq<char>),
}

/// What an [`Entry`] holds.
pub enum EntryView {
    AssistantMessage(Seq<ChunkView>),
    Other,
}

/// What a [`Thread`] holds.
pub struct ThreadView {
    pub entries: Seq<EntryView>,
    pub generating: bool,
}

impl View for Chunk {
    type V = ChunkView;

    open spec fn view(&self) -> ChunkView {
        match self {
            Chunk::Message(text) => ChunkView::Message(text@),
            Chunk::Thought(text) => ChunkView::Thought(text@),
        }
    }
}

/// What chunks hold.
pub open spec fn chunk_views(chunks: Seq<Chunk>) -> Seq<ChunkView> {
    chunks.map_values(|chunk: Chunk| chunk@)
}

impl View for Entry {
    type V = EntryView;

    open spec fn view(&self) -> EntryView {
        match self {
            Entry::AssistantMessage(chunks) => EntryView::AssistantMessage(chunk_views(chunks@)),
            Entry::Other => EntryView::Other,
        }
    }
}

impl View for Thread {
    type V = ThreadView;

    open spec fn view(&self) -> ThreadView {
        ThreadView {
            entries: self.entries@.map_values(|entry: Entry| entry@),
            generating: self.generating,
        }
    }
}

// --- Texts ---

/// What an assistant message says: its message chunks that are not empty, with
/// blank lines between them. Thoughts are left out.
pub open spec fn message_text(chunks: Seq<ChunkView>) -> Seq<char>
    decreases chunks.len(),
{
    if chunks.len() == 0 {
        seq![]
    } else {
        let before = message_text(chunks.drop_last());
        match chunks.last() {
            ChunkView::Message(text) => if text.len() == 0 {
                before
            } else if before.len() == 0 {
                text
            } else {
                before + seq!['\n', '\n'] + text
            },
            ChunkView::Thought(_) => before,
        }
    }
}

/// Whether there is an assistant message with this index.
pub open spec fn is_assistant(entries: Seq<EntryView>, ix: usize) -> bool {
    ix < entries.len() && entries[ix as int] is AssistantMessage
}

/// What the assistant message with this index says.
pub open spec fn entry_text(entries: Seq<EntryView>, ix: usize) -> Option<Seq<char>> {
    if is_assistant(entries, ix) {
        Some(message_text(entries[ix as int]->AssistantMessage_0))
    } else {
        None
    }
}

/// The text to narrate of the entry with this index, as far as it has grown.
/// `None` where that is no assistant message.
pub fn assistant_message_text(thread: &Thread, ix: usize) -> (text: Option<String>)
    ensures
        match text {
            Some(text) => entry_text(thread@.entries, ix) == Some(text@),
            None => entry_text(thread@.entries, ix) is None,
        },
{
    if ix >= thread.entries.len() {
        return None;
    }
    assert(thread@.entries[ix as int] == thread.entries@[ix as int]@);
    let chunks = match &thread.entries[ix] {
        Entry::AssistantMessage(chunks) => chunks,
        Entry::Other => {
            return None;
        },
    };
    let ghost views = chunk_views(chunks@);
    proof {
        reveal_strlit("\n\n");
        assert("\n\n"@ =~= seq!['\n', '\n']);
    }
    let mut text = String::new();
    let mut i: usize = 0;
    assert(text@ =~= message_text(views.take(0)));
    while i < chunks.len()
        invariant
            i <= chunks.len(),
            views == chunk_views(chunks@),
            text@ == message_text(views.take(i as int)),
            "\n\n"@ == seq!['\n', '\n'],
        decreases chunks.len() - i,
    {
        proof {
            let done = views.take(i + 1);
            assert(done.drop_last() =~= views.take(i as int));
            assert(done.last() == chunks@[i as int]@);
        }
        if let Chunk::Message(said) = &chunks[i] {
            if !said.as_str().is_empty() {
                if text.as_str().is_empty() {
                    text = said.clone();
                } else {
                    text.append("\n\n");
                    text.append(said.as_str());
                }
            }
        }
        i += 1;
    }
    assert(views.take(views.len() as int) =~= views);
    Some(text)
}

/// What panel-narrated agents are told.
pub open spec fn told_text(own: Option<String>) -> Seq<char> {
    match own {
        Some(text) if !blank(text@) => text@,
        _ => EMBEDDED_NARRATION_SPEC@,
    }
}

/// What panel-narrated agents are told: the user's own words where they are
/// not blank, and otherwise those that come with the editor.
pub fn narration_spec(own: Option<String>) -> (told: String)
    ensures
        told@ == told_text(own),
{
    if let Some(text) = own {
        if !is_blank(text.as_str()) {
            return text;
        }
    }
    EMBEDDED_NARRATION_SPEC.to_string()
}

#[verifier::external_type_specification]
#[verifier::external_body]
pub struct ExContentBlock(agent_client_protocol::v1::schema::ContentBlock);

/// The text of a content block that holds text and nothing else.
pub uninterp spec fn block_text(block: ContentBlock) -> Option<Seq<char>>;

/// `TextContent::new` in a `ContentBlock::Text`: a block that holds the text,
/// without annotations and metadata.
#[verifier::external_body]
fn text_block(text: String) -> (block: ContentBlock)
    ensures
        block_text(block) == Some(text@),
{
    ContentBlock::Text(TextContent::new(text))
}

/// What a panel-narrated agent is told, as a block of its first prompt's
/// request: it goes to the agent and is not shown as part of the user's
/// message.
pub fn narration_block(own: Option<String>) -> (block: ContentBlock)
    ensures
        block_text(block) == Some(told_text(own)),
{
    text_block(narration_spec(own))
}

// --- Gating ---

/// What texts say.
pub open spec fn text_views(texts: Seq<String>) -> Seq<Seq<char>> {
    texts.map_values(|text: String| text@)
}

/// Whether the daemon narrates an agent's replies through hooks of its own: so
/// it does for the agents that are known to have hooks, and for any build of
/// one that goes by many names.
pub open spec fn hook_wired(agent_id: Seq<char>, wired_agents: Seq<Seq<char>>) -> bool {
    wired_agents.contains(agent_id) || holds(ascii_lower_text(agent_id), "qwen"@)
}

/// Whether the daemon narrates an agent's replies through hooks of its own, so
/// that narrating them here would speak everything twice.
pub fn agent_has_hook_wiring(agent_id: &str, wired_agents: &Vec<String>) -> (yes: bool)
    ensures
        yes == hook_wired(agent_id@, text_views(wired_agents@)),
{
    let ghost views = text_views(wired_agents@);
    let mut i: usize = 0;
    while i < wired_agents.len()
        invariant
            i <= wired_agents.len(),
            views == text_views(wired_agents@),
            forall|k: int| 0 <= k < i ==> #[trigger] views[k] != agent_id@,
        decreases wired_agents.len() - i,
    {
        assert(views[i as int] == wired_agents@[i as int]@);
        if same_text(wired_agents[i].as_str(), agent_id) {
            assert(views.contains(agent_id@));
            return true;
        }
        i += 1;
    }
    assert(!views.contains(agent_id@));
    holds_ignoring_ascii_case(agent_id, "qwen")
}

/// Whether the settings allow narration of an agent.
pub open spec fn allowed(settings: DontSpeakSettings, hook_wired: bool) -> bool {
    settings.enabled && match settings.narrate_panel_agents {
        NarratePanelAgents::Never => false,
        NarratePanelAgents::All => true,
        NarratePanelAgents::Auto => !hook_wired,
    }
}

// --- The state ---

/// Narrates one thread.
pub struct ThreadNarrator<S> {
    /// The thread's session, under which the daemon gives it a voice.
    session: String,
    /// Whether the daemon's own hooks narrate the thread's agent.
    hook_wired: bool,
    /// Counts truncations, which reuse entry indices.
    generation: u64,
    /// The assistant entries that changed in this turn.
    touched: IndexSet,
    /// The entries whose text is due to be sent.
    pending: IndexSet,
    was_generating: bool,
    sink: RecordedSink<S>,
}

/// What a [`ThreadNarrator`] holds.
pub struct NarratorView {
    pub session: Seq<char>,
    pub hook_wired: bool,
    pub generation: u64,
    pub touched: Seq<usize>,
    pub pending: Seq<usize>,
    pub was_generating: bool,
}

impl<S> View for ThreadNarrator<S> {
    type V = NarratorView;

    closed spec fn view(&self) -> NarratorView {
        NarratorView {
            session: self.session@,
            hook_wired: self.hook_wired,
            generation: self.generation,
            touched: self.touched@,
            pending: self.pending@,
            was_generating: self.was_generating,
        }
    }
}

/// A state, and what went to the sink up to it.
pub struct Narration {
    pub state: NarratorView,
    pub calls: Seq<SinkCall>,
}

/// What the caller has to do with its timers.
#[derive(Clone, Copy, Debug, PartialEq, Eq, Structural)]
pub struct Timers {
    /// Cancel all that run.
    pub cancel: bool,
    /// Start one for the entry with this index, of [`SEND_INTERVAL`].
    pub start: Option<usize>,
}

// --- What events do ---

/// A batch's key.
pub open spec fn batch_key(session: Seq<char>, generation: nat, ix: nat) -> Seq<char> {
    session + seq!['#'] + decimal_text(generation) + seq!['#'] + decimal_text(ix)
}

/// A batch with an entry's text.
pub open spec fn batch_of(
    state: NarratorView,
    ix: usize,
    text: Seq<char>,
    is_final: bool,
) -> RequestView {
    RequestView::NarrateBatch {
        session: state.session,
        key: batch_key(state.session, state.generation as nat, ix as nat),
        text,
        is_final,
    }
}

/// A request more.
pub open spec fn sending(narration: Narration, request: RequestView) -> Narration {
    Narration { calls: narration.calls.push(SinkCall::Sent(request)), ..narration }
}

/// The sink is asked whether it is available, where the settings allow
/// narration at all.
pub open spec fn asked(narration: Narration, allow: bool, available: bool) -> Narration {
    if allow {
        Narration { calls: narration.calls.push(SinkCall::Available(available)), ..narration }
    } else {
        narration
    }
}

/// An entry changed: its text is due, unless that is so already.
pub open spec fn scheduled(
    narration: Narration,
    entries: Seq<EntryView>,
    ix: usize,
    allow: bool,
    available: bool,
) -> Narration {
    let next = asked(narration, allow, available);
    if allow && available && is_assistant(entries, ix) {
        Narration {
            state: NarratorView {
                touched: with_index(next.state.touched, ix),
                pending: with_index(next.state.pending, ix),
                ..next.state
            },
            ..next
        }
    } else {
        next
    }
}

/// An entry's text is sent, unless there is nothing to say.
pub open spec fn batched(
    narration: Narration,
    entries: Seq<EntryView>,
    ix: usize,
    is_final: bool,
    allow: bool,
    available: bool,
) -> Narration {
    let next = asked(narration, allow, available);
    match entry_text(entries, ix) {
        Some(text) if allow && available && !blank(text) => sending(
            next,
            batch_of(next.state, ix, text, is_final),
        ),
        _ => next,
    }
}

/// The texts of entries are sent, the first `count` of them. The last of all
/// is the final one.
pub open spec fn flushed(
    narration: Narration,
    entries: Seq<EntryView>,
    indices: Seq<usize>,
    count: nat,
    allow: bool,
    answers: Seq<bool>,
) -> Narration
    decreases count,
{
    if count == 0 {
        narration
    } else {
        let at = count - 1;
        batched(
            flushed(narration, entries, indices, at as nat, allow, answers),
            entries,
            indices[at],
            count == indices.len(),
            allow,
            answers[at],
        )
    }
}

/// The end of a turn: all that changed in it is sent, in the order of the
/// entries.
pub open spec fn finalized(
    narration: Narration,
    entries: Seq<EntryView>,
    allow: bool,
    answers: Seq<bool>,
) -> Narration {
    let touched = narration.state.touched;
    let cleared = Narration {
        state: NarratorView { touched: seq![], pending: seq![], ..narration.state },
        ..narration
    };
    flushed(cleared, entries, touched, touched.len(), allow, answers)
}

/// The count behind a truncation.
pub open spec fn next_truncation(generation: u64) -> u64 {
    if generation == u64::MAX {
        0
    } else {
        (generation + 1) as u64
    }
}

/// A truncation retires every key, and all that was due.
pub open spec fn truncated(narration: Narration) -> Narration {
    Narration {
        state: NarratorView {
            generation: next_truncation(narration.state.generation),
            touched: seq![],
            pending: seq![],
            ..narration.state
        },
        ..narration
    }
}

/// The agent went to work or stopped. Where it went to work, a prompt was
/// submitted to its session.
pub open spec fn status_changed(
    narration: Narration,
    generating: bool,
    allow: bool,
    available: bool,
) -> Narration {
    let told = if generating && !narration.state.was_generating {
        let next = asked(narration, allow, available);
        if allow && available {
            sending(
                next,
                RequestView::MarkActive { session: Some(next.state.session), synthetic: false },
            )
        } else {
            next
        }
    } else {
        narration
    };
    Narration { state: NarratorView { was_generating: generating, ..told.state }, ..told }
}

/// The entry that an event is about.
pub open spec fn changed_entry(thread: ThreadView, event: ThreadEvent) -> Option<usize> {
    match event {
        ThreadEvent::NewEntry => if thread.entries.len() == 0 {
            None
        } else {
            Some((thread.entries.len() - 1) as usize)
        },
        ThreadEvent::EntryUpdated(ix) => Some(ix),
        _ => None,
    }
}

/// What an event of the thread does, with what the sink answered.
pub open spec fn narrated(
    narration: Narration,
    thread: ThreadView,
    event: ThreadEvent,
    allow: bool,
    answers: Seq<bool>,
) -> Narration {
    match event {
        ThreadEvent::NewEntry | ThreadEvent::EntryUpdated(_) => match changed_entry(thread, event) {
            Some(ix) => scheduled(narration, thread.entries, ix, allow, answers[0]),
            None => narration,
        },
        ThreadEvent::EntriesRemoved => truncated(narration),
        ThreadEvent::Stopped | ThreadEvent::Error | ThreadEvent::Refusal => finalized(
            narration,
            thread.entries,
            allow,
            answers,
        ),
        ThreadEvent::StatusChanged => status_changed(
            narration,
            thread.generating,
            allow,
            answers[0],
        ),
        ThreadEvent::Other => narration,
    }
}

/// What the timer of an entry does.
pub open spec fn fired(
    narration: Narration,
    thread: ThreadView,
    ix: usize,
    generation: u64,
    allow: bool,
    available: bool,
) -> Narration {
    let next = Narration {
        state: NarratorView {
            pending: without_index(narration.state.pending, ix),
            ..narration.state
        },
        ..narration
    };
    if generation == narration.state.generation {
        batched(next, thread.entries, ix, false, allow, available)
    } else {
        next
    }
}

/// What the end of the thread does.
pub open spec fn ended(narration: Narration, allow: bool, available: bool) -> Narration {
    let next = asked(narration, allow, available);
    if allow && available {
        sending(next, RequestView::SessionEnd { session: Some(next.state.session) })
    } else {
        next
    }
}

/// What the caller has to do with its timers behind an event.
pub open spec fn timers_for(
    before: NarratorView,
    after: NarratorView,
    thread: ThreadView,
    event: ThreadEvent,
) -> Timers {
    match event {
        ThreadEvent::EntriesRemoved | ThreadEvent::Stopped | ThreadEvent::Error
        | ThreadEvent::Refusal => Timers { cancel: true, start: None },
        _ => Timers {
            cancel: false,
            start: match changed_entry(thread, event) {
                Some(ix) if after.pending.contains(ix) && !before.pending.contains(ix) => Some(ix),
                _ => None,
            },
        },
    }
}

impl<S: NarrationSink> ThreadNarrator<S> {
    /// What went to the sink.
    pub closed spec fn calls(&self) -> Seq<SinkCall> {
        self.sink@
    }

    /// The state, and what went to the sink up to it.
    pub open spec fn narration(&self) -> Narration {
        Narration { state: self@, calls: self.calls() }
    }

    /// A narrator for a thread's session and agent. Tells whether the agent
    /// has to be told about narration with its first prompt: the daemon's own
    /// hooks do so for the agents that have them.
    pub fn new(
        session: String,
        agent_id: &str,
        wired_agents: &Vec<String>,
        thread: &Thread,
        sink: S,
        settings: &DontSpeakSettings,
        cx: &mut S::Context,
    ) -> (made: (ThreadNarrator<S>, bool))
        ensures
            made.0@ == (NarratorView {
                session: session@,
                hook_wired: hook_wired(agent_id@, text_views(wired_agents@)),
                generation: 0,
                touched: seq![],
                pending: seq![],
                was_generating: thread@.generating,
            }),
            made.0.calls() == if allowed(*settings, made.0@.hook_wired) {
                seq![SinkCall::Available(made.1)]
            } else {
                seq![]
            },
            made.1 ==> allowed(*settings, made.0@.hook_wired),
    {
        let mut this = ThreadNarrator {
            session,
            hook_wired: agent_has_hook_wiring(agent_id, wired_agents),
            generation: 0,
            touched: IndexSet::new(),
            pending: IndexSet::new(),
            was_generating: thread.generating,
            sink: RecordedSink::new(sink),
        };
        let active = this.narration_active(settings, cx);
        assert(this.calls() =~= if allowed(*settings, this@.hook_wired) {
            seq![SinkCall::Available(active)]
        } else {
            seq![]
        });
        (this, active)
    }

    /// The generation under which a timer that is started now runs.
    pub fn generation(&self) -> (generation: u64)
        ensures
            generation == self@.generation,
    {
        self.generation
    }

    /// Takes an event of the thread.
    pub fn handle_thread_event(
        &mut self,
        thread: &Thread,
        event: ThreadEvent,
        settings: &DontSpeakSettings,
        cx: &mut S::Context,
    ) -> (timers: Timers)
        ensures
            exists|answers: Seq<bool>| #[trigger]
                narrated(
                    old(self).narration(),
                    thread@,
                    event,
                    allowed(*settings, old(self)@.hook_wired),
                    answers,
                ) == final(self).narration(),
            timers == timers_for(old(self)@, final(self)@, thread@, event),
    {
        let ghost start = self.narration();
        let ghost allow = allowed(*settings, self@.hook_wired);
        match event {
            ThreadEvent::NewEntry => {
                if thread.entries.len() == 0 {
                    assert(self.narration() == narrated(start, thread@, event, allow, seq![false]));
                    return Timers { cancel: false, start: None };
                }
                let ix = thread.entries.len() - 1;
                let timers = self.schedule_send(thread, ix, settings, cx);
                proof {
                    let available = choose|available: bool| #[trigger]
                        scheduled(start, thread@.entries, ix, allow, available)
                            == self.narration();
                    assert(self.narration() == narrated(
                        start,
                        thread@,
                        event,
                        allow,
                        seq![available],
                    ));
                }
                timers
            },
            ThreadEvent::EntryUpdated(ix) => {
                let timers = self.schedule_send(thread, ix, settings, cx);
                proof {
                    let available = choose|available: bool| #[trigger]
                        scheduled(start, thread@.entries, ix, allow, available)
                            == self.narration();
                    assert(self.narration() == narrated(
                        start,
                        thread@,
                        event,
                        allow,
                        seq![available],
                    ));
                }
                timers
            },
            ThreadEvent::EntriesRemoved => {
                if self.generation == u64::MAX {
                    self.generation = 0;
                } else {
                    self.generation = self.generation + 1;
                }
                self.pending = IndexSet::new();
                self.touched = IndexSet::new();
                assert(self.narration() == narrated(start, thread@, event, allow, seq![]));
                Timers { cancel: true, start: None }
            },
            ThreadEvent::Stopped | ThreadEvent::Error | ThreadEvent::Refusal => {
                self.finalize_turn(thread, settings, cx);
                proof {
                    let answers = choose|answers: Seq<bool>| #[trigger]
                        finalized(start, thread@.entries, allow, answers) == self.narration();
                    assert(self.narration() == narrated(start, thread@, event, allow, answers));
                }
                Timers { cancel: true, start: None }
            },
            ThreadEvent::StatusChanged => {
                let generating = thread.generating;
                let mut answer: bool = false;
                if generating && !self.was_generating {
                    answer = self.narration_active(settings, cx);
                    if answer {
                        let session = self.session.clone();
                        self.sink.send(
                            Request::MarkActive { session: Some(session), synthetic: false },
                            cx,
                        );
                    }
                }
                self.was_generating = generating;
                assert(self.narration() == narrated(start, thread@, event, allow, seq![answer]));
                Timers { cancel: false, start: None }
            },
            ThreadEvent::Other => {
                assert(self.narration() == narrated(start, thread@, event, allow, seq![]));
                Timers { cancel: false, start: None }
            },
        }
    }

    /// Has the text of an entry sent later, unless that is due already.
    fn schedule_send(
        &mut self,
        thread: &Thread,
        ix: usize,
        settings: &DontSpeakSettings,
        cx: &mut S::Context,
    ) -> (timers: Timers)
        ensures
            exists|available: bool| #[trigger]
                scheduled(
                    old(self).narration(),
                    thread@.entries,
                    ix,
                    allowed(*settings, old(self)@.hook_wired),
                    available,
                ) == final(self).narration(),
            timers == (Timers {
                cancel: false,
                start: if final(self)@.pending.contains(ix) && !old(self)@.pending.contains(ix) {
                    Some(ix)
                } else {
                    None
                },
            }),
    {
        let ghost start = self.narration();
        let ghost allow = allowed(*settings, self@.hook_wired);
        let active = self.narration_active(settings, cx);
        let assistant = if ix < thread.entries.len() {
            assert(thread@.entries[ix as int] == thread.entries@[ix as int]@);
            matches!(thread.entries[ix], Entry::AssistantMessage(_))
        } else {
            false
        };
        if !active || !assistant {
            assert(self.narration() == scheduled(start, thread@.entries, ix, allow, active));
            return Timers { cancel: false, start: None };
        }
        self.touched.insert(ix);
        let due = self.pending.contains(ix);
        self.pending.insert(ix);
        assert(self.narration() == scheduled(start, thread@.entries, ix, allow, active));
        Timers { cancel: false, start: if due { None } else { Some(ix) } }
    }

    /// The timer of an entry, which was started at this generation, ran out.
    pub fn timer_fired(
        &mut self,
        thread: &Thread,
        ix: usize,
        generation: u64,
        settings: &DontSpeakSettings,
        cx: &mut S::Context,
    )
        ensures
            exists|available: bool| #[trigger]
                fired(
                    old(self).narration(),
                    thread@,
                    ix,
                    generation,
                    allowed(*settings, old(self)@.hook_wired),
                    available,
                ) == final(self).narration(),
    {
        let ghost start = self.narration();
        let ghost allow = allowed(*settings, self@.hook_wired);
        self.pending.remove(ix);
        if self.generation == generation {
            let available = self.send_batch(thread, ix, false, settings, cx);
            assert(self.narration() == fired(start, thread@, ix, generation, allow, available));
        } else {
            assert(self.narration() == fired(start, thread@, ix, generation, allow, false));
        }
    }

    /// The end of a turn: sends all that changed in it, the last entry as the
    /// final one.
    fn finalize_turn(
        &mut self,
        thread: &Thread,
        settings: &DontSpeakSettings,
        cx: &mut S::Context,
    )
        ensures
            exists|answers: Seq<bool>| #[trigger]
                finalized(
                    old(self).narration(),
                    thread@.entries,
                    allowed(*settings, old(self)@.hook_wired),
                    answers,
                ) == final(self).narration(),
    {
        let ghost start = self.narration();
        let ghost allow = allowed(*settings, self@.hook_wired);
        self.pending = IndexSet::new();
        let mut touched = IndexSet::new();
        std::mem::swap(&mut touched, &mut self.touched);
        let ghost cleared = self.narration();
        let indices = touched.indices();
        let ghost mut answers: Seq<bool> = seq![];
        let mut k: usize = 0;
        while k < indices.len()
            invariant
                k <= indices.len(),
                answers.len() == k,
                allow == allowed(*settings, self@.hook_wired),
                self.narration() == flushed(
                    cleared,
                    thread@.entries,
                    indices@,
                    k as nat,
                    allow,
                    answers,
                ),
            decreases indices.len() - k,
        {
            let last = k + 1 == indices.len();
            let answer = self.send_batch(thread, indices[k], last, settings, cx);
            proof {
                let more = answers.push(answer);
                lemma_flushed_answers(
                    cleared,
                    thread@.entries,
                    indices@,
                    k as nat,
                    allow,
                    answers,
                    more,
                );
                answers = more;
            }
            k += 1;
        }
        assert(self.narration() == finalized(start, thread@.entries, allow, answers));
    }

    /// Sends the text of an entry, unless there is nothing to say. Tells what
    /// the sink answered.
    fn send_batch(
        &mut self,
        thread: &Thread,
        ix: usize,
        is_final: bool,
        settings: &DontSpeakSettings,
        cx: &mut S::Context,
    ) -> (available: bool)
        ensures
            final(self).narration() == batched(
                old(self).narration(),
                thread@.entries,
                ix,
                is_final,
                allowed(*settings, old(self)@.hook_wired),
                available,
            ),
    {
        let active = self.narration_active(settings, cx);
        if active {
            if let Some(text) = assistant_message_text(thread, ix) {
                if !is_blank(text.as_str()) {
                    let request = self.batch(ix, text, is_final);
                    self.sink.send(request, cx);
                }
            }
        }
        active
    }

    /// The request with an entry's text.
    fn batch(&self, ix: usize, text: String, is_final: bool) -> (request: Request)
        ensures
            request@ == batch_of(self@, ix, text@, is_final),
    {
        let session = self.session.clone();
        let key = write_batch_key(self.session.as_str(), self.generation, ix as u64);
        Request::NarrateBatch { session, key, text, is_final }
    }

    /// The thread is closed for good: the daemon drops what it holds for it.
    pub fn release(&mut self, settings: &DontSpeakSettings, cx: &mut S::Context)
        ensures
            exists|available: bool| #[trigger]
                ended(
                    old(self).narration(),
                    allowed(*settings, old(self)@.hook_wired),
                    available,
                ) == final(self).narration(),
    {
        let ghost start = self.narration();
        let ghost allow = allowed(*settings, self@.hook_wired);
        let active = self.narration_active(settings, cx);
        if active {
            let session = self.session.clone();
            self.sink.send(Request::SessionEnd { session: Some(session) }, cx);
        }
        assert(self.narration() == ended(start, allow, active));
    }

    /// Whether the settings allow narration and the sink is available. The
    /// sink is asked only where the settings allow narration.
    fn narration_active(&mut self, settings: &DontSpeakSettings, cx: &S::Context) -> (active: bool)
        ensures
            active ==> allowed(*settings, old(self)@.hook_wired),
            final(self).narration() == asked(
                old(self).narration(),
                allowed(*settings, old(self)@.hook_wired),
                active,
            ),
    {
        self.settings_allow(settings) && self.sink.is_available(cx)
    }

    fn settings_allow(&self, settings: &DontSpeakSettings) -> (yes: bool)
        ensures
            yes == allowed(*settings, self@.hook_wired),
    {
        settings.enabled && match settings.narrate_panel_agents {
            NarratePanelAgents::Never => false,
            NarratePanelAgents::All => true,
            NarratePanelAgents::Auto => !self.hook_wired,
        }
    }
}

/// A batch's key.
pub fn write_batch_key(session: &str, generation: u64, ix: u64) -> (key: String)
    ensures
        key@ == batch_key(session@, generation as nat, ix as nat),
{
    proof {
        reveal_strlit("#");
        assert("#"@ =~= seq!['#']);
    }
    let mut key = session.to_string();
    key.append("#");
    key.append(decimal(generation).as_str());
    key.append("#");
    key.append(decimal(ix).as_str());
    key
}

/// Answers that were not asked for yet change nothing.
proof fn lemma_flushed_answers(
    narration: Narration,
    entries: Seq<EntryView>,
    indices: Seq<usize>,
    count: nat,
    allow: bool,
    answers: Seq<bool>,
    more: Seq<bool>,
)
    requires
        count <= answers.len() <= more.len(),
        forall|i: int| 0 <= i < answers.len() ==> answers[i] == more[i],
    ensures
        flushed(narration, entries, indices, count, allow, answers) == flushed(
            narration,
            entries,
            indices,
            count,
            allow,
            more,
        ),
    decreases count,
{
    if count > 0 {
        lemma_flushed_answers(
            narration,
            entries,
            indices,
            (count - 1) as nat,
            allow,
            answers,
            more,
        );
    }
}

// --- Laws ---

/// Where a text ends in digits behind a `#`, that is a unique place.
proof fn lemma_split(a: Seq<char>, m: nat, b: Seq<char>, n: nat)
    requires
        a + seq!['#'] + decimal_text(m) == b + seq!['#'] + decimal_text(n),
    ensures
        a == b,
        m == n,
{
    let left = a + seq!['#'] + decimal_text(m);
    let right = b + seq!['#'] + decimal_text(n);
    lemma_decimal_is_digits(m);
    lemma_decimal_is_digits(n);
    assert(left.len() == a.len() + 1 + decimal_text(m).len());
    assert(right.len() == b.len() + 1 + decimal_text(n).len());
    if a.len() < b.len() {
        assert(right[b.len() as int] == '#');
        assert(left[b.len() as int] == decimal_text(m)[b.len() - a.len() - 1]);
        assert(is_digit(decimal_text(m)[b.len() - a.len() - 1]));
    } else if b.len() < a.len() {
        assert(left[a.len() as int] == '#');
        assert(right[a.len() as int] == decimal_text(n)[a.len() - b.len() - 1]);
        assert(is_digit(decimal_text(n)[a.len() - b.len() - 1]));
    }
    assert(a =~= left.take(a.len() as int));
    assert(b =~= right.take(b.len() as int));
    assert(decimal_text(m) =~= left.skip(a.len() as int + 1));
    assert(decimal_text(n) =~= right.skip(b.len() as int + 1));
    lemma_decimal_injective(m, n);
}

/// Different entries have different keys: of sessions, generations and
/// indices, no two give the same key.
pub proof fn lemma_keys_are_unique(
    session: Seq<char>,
    generation: nat,
    ix: nat,
    other_session: Seq<char>,
    other_generation: nat,
    other_ix: nat,
)
    requires
        batch_key(session, generation, ix) == batch_key(other_session, other_generation, other_ix),
    ensures
        session == other_session,
        generation == other_generation,
        ix == other_ix,
{
    lemma_split(
        session + seq!['#'] + decimal_text(generation),
        ix,
        other_session + seq!['#'] + decimal_text(other_generation),
        other_ix,
    );
    lemma_split(session, generation, other_session, other_generation);
}

/// A truncation retires every key of the thread.
pub proof fn lemma_truncation_retires_keys(narration: Narration, ix: nat, other_ix: nat)
    ensures
        batch_key(narration.state.session, narration.state.generation as nat, ix) != batch_key(
            truncated(narration).state.session,
            truncated(narration).state.generation as nat,
            other_ix,
        ),
{
    let session = narration.state.session;
    let old_generation = narration.state.generation as nat;
    let new_generation = truncated(narration).state.generation as nat;
    if batch_key(session, old_generation, ix) == batch_key(session, new_generation, other_ix) {
        lemma_keys_are_unique(session, old_generation, ix, session, new_generation, other_ix);
    }
}

/// Something that happens to a narrated thread: an event, or the timer of an
/// entry, with what the settings allow and the sink answers.
pub enum Happening {
    Event { thread: ThreadView, event: ThreadEvent, allow: bool, answers: Seq<bool> },
    Timer { thread: ThreadView, ix: usize, generation: u64, allow: bool, available: bool },
}

/// What it does.
pub open spec fn happened(narration: Narration, happening: Happening) -> Narration {
    match happening {
        Happening::Event { thread, event, allow, answers } => narrated(
            narration,
            thread,
            event,
            allow,
            answers,
        ),
        Happening::Timer { thread, ix, generation, allow, available } => fired(
            narration,
            thread,
            ix,
            generation,
            allow,
            available,
        ),
    }
}

/// Whether it is a truncation.
pub open spec fn truncation(happening: Happening) -> bool {
    happening matches Happening::Event { event: ThreadEvent::EntriesRemoved, .. }
}

/// What happens one after the other does.
pub open spec fn ran(narration: Narration, happenings: Seq<Happening>) -> Narration
    decreases happenings.len(),
{
    if happenings.len() == 0 {
        narration
    } else {
        happened(ran(narration, happenings.drop_last()), happenings.last())
    }
}

/// How many truncations there are.
pub open spec fn truncations(happenings: Seq<Happening>) -> nat
    decreases happenings.len(),
{
    if happenings.len() == 0 {
        0
    } else {
        truncations(happenings.drop_last()) + if truncation(happenings.last()) {
            1nat
        } else {
            0
        }
    }
}

/// A thread keeps its session, and its generation counts truncations and
/// nothing else.
pub proof fn lemma_generation_counts_truncations(narration: Narration, happenings: Seq<Happening>)
    requires
        narration.state.generation + truncations(happenings) <= u64::MAX,
    ensures
        ran(narration, happenings).state.session == narration.state.session,
        ran(narration, happenings).state.generation == narration.state.generation + truncations(
            happenings,
        ),
    decreases happenings.len(),
{
    if happenings.len() > 0 {
        lemma_generation_counts_truncations(narration, happenings.drop_last());
        let before = ran(narration, happenings.drop_last());
        let touched = before.state.touched;
        let cleared = Narration {
            state: NarratorView { touched: seq![], pending: seq![], ..before.state },
            ..before
        };
        if let Happening::Event { thread, allow, answers, .. } = happenings.last() {
            lemma_flushed_state(cleared, thread.entries, touched, touched.len(), allow, answers);
        }
    }
}

/// A key that a truncation retired does not come back, whatever happens.
pub proof fn lemma_retired_keys_stay_retired(
    narration: Narration,
    happenings: Seq<Happening>,
    ix: nat,
    other_ix: nat,
)
    requires
        truncations(happenings) > 0,
        narration.state.generation + truncations(happenings) <= u64::MAX,
    ensures
        batch_key(narration.state.session, narration.state.generation as nat, ix) != batch_key(
            ran(narration, happenings).state.session,
            ran(narration, happenings).state.generation as nat,
            other_ix,
        ),
{
    lemma_generation_counts_truncations(narration, happenings);
    let session = narration.state.session;
    let before = narration.state.generation as nat;
    let behind = ran(narration, happenings).state.generation as nat;
    if batch_key(session, before, ix) == batch_key(session, behind, other_ix) {
        lemma_keys_are_unique(session, before, ix, session, behind, other_ix);
    }
}

/// The requests that went to the sink.
pub open spec fn sent(calls: Seq<SinkCall>) -> Seq<RequestView>
    decreases calls.len(),
{
    if calls.len() == 0 {
        seq![]
    } else {
        let before = sent(calls.drop_last());
        match calls.last() {
            SinkCall::Sent(request) => before.push(request),
            SinkCall::Available(_) => before,
        }
    }
}

proof fn lemma_sent_push(calls: Seq<SinkCall>, call: SinkCall)
    ensures
        sent(calls.push(call)) == match call {
            SinkCall::Sent(request) => sent(calls).push(request),
            SinkCall::Available(_) => sent(calls),
        },
{
    assert(calls.push(call).drop_last() =~= calls);
}

proof fn lemma_flushed_disallowed(
    narration: Narration,
    entries: Seq<EntryView>,
    indices: Seq<usize>,
    count: nat,
    answers: Seq<bool>,
)
    ensures
        flushed(narration, entries, indices, count, false, answers) == narration,
    decreases count,
{
    if count > 0 {
        lemma_flushed_disallowed(narration, entries, indices, (count - 1) as nat, answers);
    }
}

/// Where the settings do not allow an agent, nothing goes to the sink, whatever
/// happens.
pub proof fn lemma_disallowed_is_silent(
    narration: Narration,
    thread: ThreadView,
    event: ThreadEvent,
    answers: Seq<bool>,
    ix: usize,
    generation: u64,
    available: bool,
)
    ensures
        narrated(narration, thread, event, false, answers).calls == narration.calls,
        fired(narration, thread, ix, generation, false, available).calls == narration.calls,
        ended(narration, false, available).calls == narration.calls,
{
    let touched = narration.state.touched;
    let cleared = Narration {
        state: NarratorView { touched: seq![], pending: seq![], ..narration.state },
        ..narration
    };
    lemma_flushed_disallowed(cleared, thread.entries, touched, touched.len(), answers);
}

proof fn lemma_flushed_unavailable(
    narration: Narration,
    entries: Seq<EntryView>,
    indices: Seq<usize>,
    count: nat,
    allow: bool,
    answers: Seq<bool>,
)
    requires
        count <= answers.len(),
        forall|i: int| 0 <= i < answers.len() ==> !(#[trigger] answers[i]),
    ensures
        sent(flushed(narration, entries, indices, count, allow, answers).calls) == sent(
            narration.calls,
        ),
    decreases count,
{
    if count > 0 {
        let at = (count - 1) as nat;
        lemma_flushed_unavailable(narration, entries, indices, at, allow, answers);
        let before = flushed(narration, entries, indices, at, allow, answers);
        assert(!answers[at as int]);
        lemma_sent_push(before.calls, SinkCall::Available(false));
    }
}

/// While the daemon cannot be reached, no request is sent.
pub proof fn lemma_unavailable_is_silent(
    narration: Narration,
    thread: ThreadView,
    event: ThreadEvent,
    allow: bool,
    answers: Seq<bool>,
    ix: usize,
    generation: u64,
)
    requires
        narration.state.touched.len() <= answers.len(),
        answers.len() > 0,
        forall|i: int| 0 <= i < answers.len() ==> !(#[trigger] answers[i]),
    ensures
        sent(narrated(narration, thread, event, allow, answers).calls) == sent(narration.calls),
        sent(fired(narration, thread, ix, generation, allow, false).calls) == sent(narration.calls),
        sent(ended(narration, allow, false).calls) == sent(narration.calls),
{
    let touched = narration.state.touched;
    let cleared = Narration {
        state: NarratorView { touched: seq![], pending: seq![], ..narration.state },
        ..narration
    };
    lemma_flushed_unavailable(cleared, thread.entries, touched, touched.len(), allow, answers);
    lemma_sent_push(narration.calls, SinkCall::Available(false));
    assert(!answers[0]);
}

/// The batches of entries, the first `count` of them: entries that say nothing
/// have none.
pub open spec fn batches(
    state: NarratorView,
    entries: Seq<EntryView>,
    indices: Seq<usize>,
    count: nat,
) -> Seq<RequestView>
    decreases count,
{
    if count == 0 {
        seq![]
    } else {
        let at = count - 1;
        let before = batches(state, entries, indices, at as nat);
        match entry_text(entries, indices[at]) {
            Some(text) if !blank(text) => before.push(
                batch_of(state, indices[at], text, count == indices.len()),
            ),
            _ => before,
        }
    }
}

proof fn lemma_flushed_available(
    narration: Narration,
    entries: Seq<EntryView>,
    indices: Seq<usize>,
    count: nat,
    answers: Seq<bool>,
)
    requires
        count <= indices.len() <= answers.len(),
        forall|i: int| 0 <= i < answers.len() ==> #[trigger] answers[i],
    ensures
        flushed(narration, entries, indices, count, true, answers).state == narration.state,
        sent(flushed(narration, entries, indices, count, true, answers).calls) == sent(
            narration.calls,
        ) + batches(narration.state, entries, indices, count),
    decreases count,
{
    if count == 0 {
        assert(sent(narration.calls) + Seq::<RequestView>::empty() =~= sent(narration.calls));
    } else {
        let at = (count - 1) as nat;
        lemma_flushed_available(narration, entries, indices, at, answers);
        let before = flushed(narration, entries, indices, at, true, answers);
        assert(answers[at as int]);
        lemma_sent_push(before.calls, SinkCall::Available(true));
        let next = asked(before, true, true);
        if let Some(text) = entry_text(entries, indices[at as int]) {
            if !blank(text) {
                let request = batch_of(
                    next.state,
                    indices[at as int],
                    text,
                    count == indices.len(),
                );
                lemma_sent_push(next.calls, SinkCall::Sent(request));
                assert(sent(narration.calls) + batches(
                    narration.state,
                    entries,
                    indices,
                    at,
                ).push(request) =~= (sent(narration.calls) + batches(
                    narration.state,
                    entries,
                    indices,
                    at,
                )).push(request));
            }
        }
    }
}

/// At the end of a turn the daemon gets the text of every entry that changed
/// in it and says something, in the order of the entries.
pub proof fn lemma_turn_is_flushed(
    narration: Narration,
    entries: Seq<EntryView>,
    answers: Seq<bool>,
)
    requires
        narration.state.touched.len() <= answers.len(),
        forall|i: int| 0 <= i < answers.len() ==> #[trigger] answers[i],
    ensures
        sent(finalized(narration, entries, true, answers).calls) == sent(narration.calls)
            + batches(
            narration.state,
            entries,
            narration.state.touched,
            narration.state.touched.len(),
        ),
{
    let touched = narration.state.touched;
    let cleared = Narration {
        state: NarratorView { touched: seq![], pending: seq![], ..narration.state },
        ..narration
    };
    lemma_flushed_available(cleared, entries, touched, touched.len(), answers);
    lemma_batches_of_session(
        cleared.state,
        narration.state,
        entries,
        touched,
        touched.len(),
    );
}

proof fn lemma_batches_of_session(
    state: NarratorView,
    other: NarratorView,
    entries: Seq<EntryView>,
    indices: Seq<usize>,
    count: nat,
)
    requires
        state.session == other.session,
        state.generation == other.generation,
    ensures
        batches(state, entries, indices, count) == batches(other, entries, indices, count),
    decreases count,
{
    if count > 0 {
        lemma_batches_of_session(state, other, entries, indices, (count - 1) as nat);
    }
}

/// Of the batches of a turn at most the last one is final, and that is the one
/// of the last entry that changed.
pub proof fn lemma_one_final_batch(
    state: NarratorView,
    entries: Seq<EntryView>,
    indices: Seq<usize>,
    count: nat,
    i: int,
)
    requires
        count <= indices.len(),
        0 <= i < batches(state, entries, indices, count).len(),
        batches(state, entries, indices, count)[i]->is_final,
    ensures
        count == indices.len(),
        i == batches(state, entries, indices, count).len() - 1,
        batches(state, entries, indices, count)[i]->key == batch_key(
            state.session,
            state.generation as nat,
            indices.last() as nat,
        ),
    decreases count,
{
    let before = batches(state, entries, indices, (count - 1) as nat);
    if i < before.len() {
        assert(batches(state, entries, indices, count)[i] == before[i]);
        lemma_one_final_batch(state, entries, indices, (count - 1) as nat, i);
    }
}

/// Behind the end of a turn nothing is due: to end it again does nothing.
pub proof fn lemma_turn_ends_once(
    narration: Narration,
    entries: Seq<EntryView>,
    allow: bool,
    answers: Seq<bool>,
    later_entries: Seq<EntryView>,
    later: Seq<bool>,
)
    ensures
        ({
            let end = finalized(narration, entries, allow, answers);
            &&& end.state.touched == Seq::<usize>::empty()
            &&& end.state.pending == Seq::<usize>::empty()
            &&& finalized(end, later_entries, allow, later) == end
        }),
{
    let touched = narration.state.touched;
    let cleared = Narration {
        state: NarratorView { touched: seq![], pending: seq![], ..narration.state },
        ..narration
    };
    lemma_flushed_state(cleared, entries, touched, touched.len(), allow, answers);
}

proof fn lemma_flushed_state(
    narration: Narration,
    entries: Seq<EntryView>,
    indices: Seq<usize>,
    count: nat,
    allow: bool,
    answers: Seq<bool>,
)
    ensures
        flushed(narration, entries, indices, count, allow, answers).state == narration.state,
    decreases count,
{
    if count > 0 {
        lemma_flushed_state(narration, entries, indices, (count - 1) as nat, allow, answers);
    }
}

/// A turn that was refused, and its entries taken back, does not have the
/// entries of earlier turns narrated again.
pub proof fn lemma_refused_turn_is_silent(
    narration: Narration,
    thread: ThreadView,
    allow: bool,
    answers: Seq<bool>,
)
    ensures
        narrated(truncated(narration), thread, ThreadEvent::Refusal, allow, answers) == truncated(
            narration,
        ),
{
}

/// A timer that was started before a truncation sends nothing.
pub proof fn lemma_stale_timer_is_silent(
    narration: Narration,
    thread: ThreadView,
    ix: usize,
    allow: bool,
    available: bool,
)
    ensures
        fired(
            truncated(narration),
            thread,
            ix,
            narration.state.generation,
            allow,
            available,
        ).calls == narration.calls,
{
}

/// Whether a chunk is silent.
pub open spec fn silent(chunk: ChunkView) -> bool {
    chunk is Thought || chunk->Message_0.len() == 0
}

/// A message of thoughts alone says nothing.
pub proof fn lemma_thoughts_are_silent(chunks: Seq<ChunkView>)
    requires
        forall|i: int| 0 <= i < chunks.len() ==> silent(#[trigger] chunks[i]),
    ensures
        message_text(chunks) == Seq::<char>::empty(),
        blank(message_text(chunks)),
    decreases chunks.len(),
{
    if chunks.len() > 0 {
        let before = chunks.drop_last();
        assert forall|i: int| 0 <= i < before.len() implies silent(#[trigger] before[i]) by {
            assert(before[i] == chunks[i]);
        }
        lemma_thoughts_are_silent(before);
        assert(silent(chunks[chunks.len() - 1]));
    }
}

/// The text of a message only grows with its chunks.
pub proof fn lemma_text_grows(chunks: Seq<ChunkView>, chunk: ChunkView)
    ensures
        message_text(chunks).is_prefix_of(message_text(chunks.push(chunk))),
{
    assert(chunks.push(chunk).drop_last() =~= chunks);
    let before = message_text(chunks);
    let after = message_text(chunks.push(chunk));
    assert(before =~= after.take(before.len() as int));
}

/// The entries stand in order, and what is due has changed in this turn.
pub open spec fn well_formed(state: NarratorView) -> bool {
    &&& ascending(state.touched)
    &&& ascending(state.pending)
    &&& forall|ix: usize| #[trigger] state.pending.contains(ix) ==> state.touched.contains(ix)
}

/// Everything that happens leaves the state well formed.
pub proof fn lemma_well_formed(
    narration: Narration,
    thread: ThreadView,
    event: ThreadEvent,
    allow: bool,
    answers: Seq<bool>,
    fired_ix: usize,
    generation: u64,
    available: bool,
)
    requires
        well_formed(narration.state),
    ensures
        well_formed(narrated(narration, thread, event, allow, answers).state),
        well_formed(fired(narration, thread, fired_ix, generation, allow, available).state),
{
    let touched = narration.state.touched;
    let pending = narration.state.pending;
    lemma_without_index(pending, fired_ix);
    match event {
        ThreadEvent::NewEntry | ThreadEvent::EntryUpdated(_) => {
            if let Some(ix) = changed_entry(thread, event) {
                lemma_with_index(touched, ix);
                lemma_with_index(pending, ix);
                let next = narrated(narration, thread, event, allow, answers).state;
                assert forall|x: usize| #[trigger] next.pending.contains(x) implies next.touched.contains(
                    x,
                ) by {
                    if next.pending == with_index(pending, ix) {
                        assert(with_index(pending, ix).contains(x));
                        if pending.contains(x) {
                            assert(touched.contains(x));
                        }
                        assert(with_index(touched, ix).contains(x));
                    }
                }
            }
        },
        ThreadEvent::Stopped | ThreadEvent::Error | ThreadEvent::Refusal => {
            let cleared = Narration {
                state: NarratorView { touched: seq![], pending: seq![], ..narration.state },
                ..narration
            };
            lemma_flushed_state(cleared, thread.entries, touched, touched.len(), allow, answers);
        },
        _ => {},
    }
}

// --- Sends ---

/// A batch is sent once where the settings allow the agent, the sink is
/// available and the entry is an assistant message that says something, and
/// nothing is sent otherwise. Nothing else changes.
pub proof fn lemma_one_batch(
    narration: Narration,
    entries: Seq<EntryView>,
    ix: usize,
    is_final: bool,
    allow: bool,
    available: bool,
)
    ensures
        ({
            let next = batched(narration, entries, ix, is_final, allow, available);
            &&& next.state == narration.state
            &&& sent(next.calls) == sent(narration.calls) + match entry_text(entries, ix) {
                Some(text) if allow && available && !blank(text) => seq![
                    batch_of(narration.state, ix, text, is_final),
                ],
                _ => seq![],
            }
        }),
{
    lemma_sent_push(narration.calls, SinkCall::Available(available));
    let next = asked(narration, allow, available);
    if let Some(text) = entry_text(entries, ix) {
        let request = batch_of(narration.state, ix, text, is_final);
        lemma_sent_push(next.calls, SinkCall::Sent(request));
    }
    assert(sent(batched(narration, entries, ix, is_final, allow, available).calls) =~= sent(
        narration.calls,
    ) + match entry_text(entries, ix) {
        Some(text) if allow && available && !blank(text) => seq![
            batch_of(narration.state, ix, text, is_final),
        ],
        _ => seq![],
    });
}

/// Two batches of one narrator have the same key if and only if they are of the
/// same generation and the same entry.
pub proof fn lemma_batch_keys(
    state: NarratorView,
    ix: usize,
    text: Seq<char>,
    is_final: bool,
    other: NarratorView,
    other_ix: usize,
    other_text: Seq<char>,
    other_is_final: bool,
)
    requires
        state.session == other.session,
    ensures
        batch_of(state, ix, text, is_final)->key == batch_of(
            other,
            other_ix,
            other_text,
            other_is_final,
        )->key <==> state.generation == other.generation && ix == other_ix,
{
    let session = state.session;
    let key = batch_key(session, state.generation as nat, ix as nat);
    if key == batch_key(session, other.generation as nat, other_ix as nat) {
        lemma_keys_are_unique(
            session,
            state.generation as nat,
            ix as nat,
            session,
            other.generation as nat,
            other_ix as nat,
        );
    }
}

proof fn lemma_all_batches(
    state: NarratorView,
    entries: Seq<EntryView>,
    indices: Seq<usize>,
    count: nat,
)
    requires
        count <= indices.len(),
        forall|i: int|
            0 <= i < indices.len() ==> (entry_text(entries, #[trigger] indices[i]) matches Some(
                text,
            ) && !blank(text)),
    ensures
        batches(state, entries, indices, count) == Seq::new(
            count,
            |i: int|
                batch_of(
                    state,
                    indices[i],
                    entry_text(entries, indices[i])->0,
                    i == indices.len() - 1,
                ),
        ),
    decreases count,
{
    let made = |i: int|
        batch_of(state, indices[i], entry_text(entries, indices[i])->0, i == indices.len() - 1);
    if count > 0 {
        let at = (count - 1) as nat;
        lemma_all_batches(state, entries, indices, at);
        assert(entry_text(entries, indices[at as int]) is Some);
        assert(Seq::new(count, made) =~= Seq::new(at, made).push(made(at as int)));
    } else {
        assert(Seq::new(count, made) =~= seq![]);
    }
}

/// At the end of a turn in which every entry that changed says something, the
/// daemon gets one batch of each, in ascending order, of which the last and no
/// other is final. Where nothing changed, it gets nothing. All that was due is
/// cancelled, and to end the turn again right behind sends nothing.
pub proof fn lemma_end_of_turn(
    narration: Narration,
    entries: Seq<EntryView>,
    answers: Seq<bool>,
    later_entries: Seq<EntryView>,
    later: Seq<bool>,
)
    requires
        well_formed(narration.state),
        narration.state.touched.len() <= answers.len(),
        forall|i: int| 0 <= i < answers.len() ==> #[trigger] answers[i],
        forall|i: int|
            0 <= i < narration.state.touched.len() ==> (entry_text(
                entries,
                #[trigger] narration.state.touched[i],
            ) matches Some(text) && !blank(text)),
    ensures
        ({
            let touched = narration.state.touched;
            let end = finalized(narration, entries, true, answers);
            &&& forall|i: int, j: int|
                0 <= i < j < touched.len() ==> #[trigger] touched[i] < #[trigger] touched[j]
            &&& sent(end.calls) == sent(narration.calls) + Seq::new(
                touched.len(),
                |i: int|
                    batch_of(
                        narration.state,
                        touched[i],
                        entry_text(entries, touched[i])->0,
                        i == touched.len() - 1,
                    ),
            )
            &&& end.state.touched == Seq::<usize>::empty()
            &&& end.state.pending == Seq::<usize>::empty()
            &&& finalized(end, later_entries, true, later) == end
        }),
{
    let touched = narration.state.touched;
    lemma_turn_is_flushed(narration, entries, answers);
    lemma_all_batches(narration.state, entries, touched, touched.len());
    lemma_turn_ends_once(narration, entries, true, answers, later_entries, later);
}

// --- The throttle ---

/// A timer of the caller: when it runs out, in milliseconds, and the generation
/// at which it was started.
pub struct Due {
    pub at: int,
    pub generation: u64,
}

/// A narration, and the timers that the caller runs for its entries.
pub struct Timed {
    pub narration: Narration,
    pub due: Map<usize, Due>,
}

/// Something that happens at a time, in milliseconds.
pub struct Moment {
    pub at: int,
    pub happening: Happening,
}

/// What the caller does with its timers at a time.
pub open spec fn timers_set(
    due: Map<usize, Due>,
    timers: Timers,
    at: int,
    generation: u64,
) -> Map<usize, Due> {
    let kept = if timers.cancel {
        Map::empty()
    } else {
        due
    };
    match timers.start {
        Some(ix) => kept.insert(ix, Due { at: at + SEND_INTERVAL, generation }),
        None => kept,
    }
}

/// What a moment does to a narration and its timers.
pub open spec fn passed(timed: Timed, moment: Moment) -> Timed {
    let narration = happened(timed.narration, moment.happening);
    match moment.happening {
        Happening::Event { thread, event, .. } => {
            let timers = timers_for(timed.narration.state, narration.state, thread, event);
            Timed {
                narration,
                due: timers_set(timed.due, timers, moment.at, narration.state.generation),
            }
        },
        Happening::Timer { ix, .. } => Timed { narration, due: timed.due.remove(ix) },
    }
}

/// A moment can come: no timer has run out before it, and the timer of an entry
/// runs out when it is due.
pub open spec fn can_come(timed: Timed, moment: Moment) -> bool {
    &&& forall|ix: usize| #[trigger]
        timed.due.dom().contains(ix) ==> moment.at <= timed.due[ix].at
    &&& moment.happening matches Happening::Timer { ix, generation, .. } ==> {
        &&& timed.due.dom().contains(ix)
        &&& timed.due[ix] == (Due { at: moment.at, generation })
    }
}

/// Moments, one after the other.
pub open spec fn all_passed(timed: Timed, moments: Seq<Moment>) -> Timed
    decreases moments.len(),
{
    if moments.len() == 0 {
        timed
    } else {
        passed(all_passed(timed, moments.drop_last()), moments.last())
    }
}

/// Moments can come one after the other.
pub open spec fn all_can_come(timed: Timed, moments: Seq<Moment>) -> bool
    decreases moments.len(),
{
    moments.len() == 0 || {
        &&& all_can_come(timed, moments.drop_last())
        &&& can_come(all_passed(timed, moments.drop_last()), moments.last())
    }
}

/// The entries with a timer are those whose text is due, and the timers are of
/// the current generation.
pub open spec fn in_step(timed: Timed) -> bool {
    let state = timed.narration.state;
    &&& well_formed(state)
    &&& forall|ix: usize| #[trigger] timed.due.dom().contains(ix) <==> state.pending.contains(ix)
    &&& forall|ix: usize| #[trigger]
        timed.due.dom().contains(ix) ==> timed.due[ix].generation == state.generation
}

/// The timers that a caller runs as it is told stay in step with what is due.
pub proof fn lemma_timers_stay_in_step(timed: Timed, moment: Moment)
    requires
        in_step(timed),
        can_come(timed, moment),
    ensures
        in_step(passed(timed, moment)),
{
    let state = timed.narration.state;
    let next = passed(timed, moment);
    match moment.happening {
        Happening::Event { thread, event, allow, answers } => {
            lemma_well_formed(timed.narration, thread, event, allow, answers, 0, 0, false);
            match event {
                ThreadEvent::NewEntry | ThreadEvent::EntryUpdated(_) => {
                    if let Some(ix) = changed_entry(thread, event) {
                        lemma_with_index(state.pending, ix);
                        assert forall|x: usize| #[trigger]
                            next.due.dom().contains(x) <==> next.narration.state.pending.contains(
                                x,
                            ) by {
                            assert(with_index(state.pending, ix).contains(x)
                                <==> state.pending.contains(x) || x == ix);
                            assert(timed.due.dom().contains(x) <==> state.pending.contains(x));
                            assert(with_index(state.pending, ix).contains(ix));
                            assert(timed.due.dom().contains(ix) <==> state.pending.contains(ix));
                        }
                    }
                },
                ThreadEvent::Stopped | ThreadEvent::Error | ThreadEvent::Refusal => {
                    let cleared = Narration {
                        state: NarratorView { touched: seq![], pending: seq![], ..state },
                        ..timed.narration
                    };
                    lemma_flushed_state(
                        cleared,
                        thread.entries,
                        state.touched,
                        state.touched.len(),
                        allow,
                        answers,
                    );
                },
                _ => {},
            }
        },
        Happening::Timer { thread, ix, generation, allow, available } => {
            lemma_well_formed(
                timed.narration,
                thread,
                ThreadEvent::Other,
                allow,
                seq![],
                ix,
                generation,
                available,
            );
            lemma_without_index(state.pending, ix);
            assert forall|x: usize| #[trigger]
                next.due.dom().contains(x) <==> next.narration.state.pending.contains(x) by {
                assert(without_index(state.pending, ix).contains(x) <==> state.pending.contains(x)
                    && x != ix);
                assert(timed.due.dom().contains(x) <==> state.pending.contains(x));
            }
        },
    }
}

/// The batches that were sent under a key.
pub open spec fn batches_under(calls: Seq<SinkCall>, key: Seq<char>) -> Seq<RequestView>
    decreases calls.len(),
{
    if calls.len() == 0 {
        seq![]
    } else {
        let before = batches_under(calls.drop_last(), key);
        match calls.last() {
            SinkCall::Sent(request) => if request is NarrateBatch && request->key == key {
                before.push(request)
            } else {
                before
            },
            SinkCall::Available(_) => before,
        }
    }
}

proof fn lemma_batches_push(calls: Seq<SinkCall>, call: SinkCall, key: Seq<char>)
    ensures
        batches_under(calls.push(call), key) == match call {
            SinkCall::Sent(request) => if request is NarrateBatch && request->key == key {
                batches_under(calls, key).push(request)
            } else {
                batches_under(calls, key)
            },
            SinkCall::Available(_) => batches_under(calls, key),
        },
{
    assert(calls.push(call).drop_last() =~= calls);
}

/// It ends no turn and is no truncation.
pub open spec fn within_turn(happening: Happening) -> bool {
    happening matches Happening::Event { event, .. } ==> !(event is EntriesRemoved
        || event is Stopped || event is Error || event is Refusal)
}

/// The key of an entry's batches.
pub open spec fn entry_key(state: NarratorView, ix: usize) -> Seq<char> {
    batch_key(state.session, state.generation as nat, ix as nat)
}

/// What happens within a turn before the timer of an entry runs out does not
/// move the timer, and sends nothing of the entry.
proof fn lemma_timer_stays(timed: Timed, moment: Moment, ix: usize)
    requires
        in_step(timed),
        can_come(timed, moment),
        timed.due.dom().contains(ix),
        moment.at < timed.due[ix].at,
        within_turn(moment.happening),
    ensures
        ({
            let next = passed(timed, moment);
            let key = entry_key(timed.narration.state, ix);
            &&& in_step(next)
            &&& next.due.dom().contains(ix)
            &&& next.due[ix] == timed.due[ix]
            &&& next.narration.state.session == timed.narration.state.session
            &&& next.narration.state.generation == timed.narration.state.generation
            &&& batches_under(next.narration.calls, key) == batches_under(
                timed.narration.calls,
                key,
            )
        }),
{
    lemma_timers_stay_in_step(timed, moment);
    let narration = timed.narration;
    let state = narration.state;
    let key = entry_key(state, ix);
    match moment.happening {
        Happening::Event { thread, event, allow, answers } => {
            lemma_batches_push(narration.calls, SinkCall::Available(answers[0]), key);
            let next = asked(narration, allow, answers[0]);
            let request = RequestView::MarkActive {
                session: Some(state.session),
                synthetic: false,
            };
            lemma_batches_push(next.calls, SinkCall::Sent(request), key);
        },
        Happening::Timer { thread, ix: other, generation, allow, available } => {
            lemma_batches_push(narration.calls, SinkCall::Available(available), key);
            let next = asked(narration, allow, available);
            if let Some(text) = entry_text(thread.entries, other) {
                let request = batch_of(state, other, text, false);
                lemma_batches_push(next.calls, SinkCall::Sent(request), key);
                lemma_batch_keys(state, ix, text, false, state, other, text, false);
            }
        },
    }
}

proof fn lemma_timer_stays_through(timed: Timed, moments: Seq<Moment>, ix: usize)
    requires
        in_step(timed),
        all_can_come(timed, moments),
        timed.due.dom().contains(ix),
        forall|i: int|
            0 <= i < moments.len() ==> (#[trigger] moments[i]).at < timed.due[ix].at
                && within_turn(moments[i].happening),
    ensures
        ({
            let end = all_passed(timed, moments);
            let key = entry_key(timed.narration.state, ix);
            &&& in_step(end)
            &&& end.due.dom().contains(ix)
            &&& end.due[ix] == timed.due[ix]
            &&& end.narration.state.session == timed.narration.state.session
            &&& end.narration.state.generation == timed.narration.state.generation
            &&& batches_under(end.narration.calls, key) == batches_under(
                timed.narration.calls,
                key,
            )
        }),
    decreases moments.len(),
{
    if moments.len() > 0 {
        let before = moments.drop_last();
        assert forall|i: int| 0 <= i < before.len() implies (#[trigger] before[i]).at
            < timed.due[ix].at && within_turn(before[i].happening) by {
            assert(before[i] == moments[i]);
        }
        lemma_timer_stays_through(timed, before, ix);
        assert(moments[moments.len() - 1].at < timed.due[ix].at);
        lemma_timer_stays(all_passed(timed, before), moments.last(), ix);
    }
}

/// An update of an entry is one that narration takes up: the settings allow the
/// agent, the sink is available, and the entry is an assistant message.
pub open spec fn taken_up(happening: Happening, ix: usize) -> bool {
    happening matches Happening::Event { thread, event, allow, answers } && {
        &&& changed_entry(thread, event) == Some(ix)
        &&& allow && answers[0]
        &&& is_assistant(thread.entries, ix)
    }
}

/// Updates of an entry are throttled. The first update of an entry starts a
/// window of [`SEND_INTERVAL`]. Within the turn nothing moves the window's end,
/// and nothing of the entry is sent before it, however many updates follow. At
/// its end one batch is sent, which is not final, with the entry's whole text
/// as it is then, provided that the settings still allow the agent, the sink is
/// available and the text says something. With that the window is over.
pub proof fn lemma_throttle(
    timed: Timed,
    first: Moment,
    moments: Seq<Moment>,
    last: Moment,
    ix: usize,
)
    requires
        in_step(timed),
        !timed.due.dom().contains(ix),
        can_come(timed, first),
        taken_up(first.happening, ix),
        all_can_come(passed(timed, first), moments),
        forall|i: int|
            0 <= i < moments.len() ==> (#[trigger] moments[i]).at < first.at + SEND_INTERVAL
                && within_turn(moments[i].happening),
        can_come(all_passed(passed(timed, first), moments), last),
        last.happening matches Happening::Timer { ix: fired_ix, .. } && fired_ix == ix,
    ensures
        ({
            let state = timed.narration.state;
            let key = entry_key(state, ix);
            let end = all_passed(passed(timed, first), moments);
            let over = passed(end, last);
            &&& batches_under(end.narration.calls, key) == batches_under(
                timed.narration.calls,
                key,
            )
            &&& last.at == first.at + SEND_INTERVAL
            &&& last.happening matches Happening::Timer { thread, allow, available, .. }
            &&& batches_under(over.narration.calls, key) == batches_under(
                timed.narration.calls,
                key,
            ) + match entry_text(thread.entries, ix) {
                Some(text) if allow && available && !blank(text) => seq![
                    batch_of(state, ix, text, false),
                ],
                _ => seq![],
            }
            &&& !over.due.dom().contains(ix)
        }),
{
    let narration = timed.narration;
    let state = narration.state;
    let key = entry_key(state, ix);
    let start = passed(timed, first);
    lemma_timers_stay_in_step(timed, first);
    assert(!state.pending.contains(ix));
    lemma_with_index(state.pending, ix);
    assert(with_index(state.pending, ix).contains(ix));
    lemma_batches_push(narration.calls, SinkCall::Available(true), key);
    lemma_timer_stays_through(start, moments, ix);
    let end = all_passed(start, moments);
    if let Happening::Timer { thread, generation, allow, available, .. } = last.happening {
        let calls = end.narration.calls;
        lemma_batches_push(calls, SinkCall::Available(available), key);
        let next = asked(end.narration, allow, available);
        if let Some(text) = entry_text(thread.entries, ix) {
            let request = batch_of(state, ix, text, false);
            lemma_batches_push(next.calls, SinkCall::Sent(request), key);
        }
        assert(batches_under(passed(end, last).narration.calls, key) =~= batches_under(
            narration.calls,
            key,
        ) + match entry_text(thread.entries, ix) {
            Some(text) if allow && available && !blank(text) => seq![
                batch_of(state, ix, text, false),
            ],
            _ => seq![],
        });
    }
}

/// What happens to one entry within a turn leaves the windows of the others as
/// they are.
pub proof fn lemma_windows_are_independent(timed: Timed, moment: Moment, ix: usize, other: usize)
    requires
        within_turn(moment.happening),
        match moment.happening {
            Happening::Event { thread, event, .. } => changed_entry(thread, event) == Some(ix),
            Happening::Timer { ix: fired_ix, .. } => fired_ix == ix,
        },
        other != ix,
    ensures
        passed(timed, moment).due.dom().contains(other) <==> timed.due.dom().contains(other),
        timed.due.dom().contains(other) ==> passed(timed, moment).due[other] == timed.due[other],
{
}

// --- What is narrated ---

/// The text of a message is what its message chunks say, in order and with a
/// blank line between any two that say something; thoughts say nothing. So the
/// text of a chunk alone is its own, two runs of chunks say what each says, and
/// one more chunk that says something stands at the end of the text.
pub proof fn lemma_message_text(
    chunks: Seq<ChunkView>,
    more: Seq<ChunkView>,
    said: Seq<char>,
)
    ensures
        message_text(Seq::<ChunkView>::empty()) == Seq::<char>::empty(),
        message_text(seq![ChunkView::Message(said)]) == said,
        message_text(seq![ChunkView::Thought(said)]) == Seq::<char>::empty(),
        message_text(chunks + more) == if message_text(chunks).len() == 0 {
            message_text(more)
        } else if message_text(more).len() == 0 {
            message_text(chunks)
        } else {
            message_text(chunks) + seq!['\n', '\n'] + message_text(more)
        },
        message_text(chunks.push(ChunkView::Thought(said))) == message_text(chunks),
        said.len() == 0 ==> message_text(chunks.push(ChunkView::Message(said))) == message_text(
            chunks,
        ),
        said.len() > 0 ==> message_text(chunks.push(ChunkView::Message(said)))
            == if message_text(chunks).len() == 0 {
            said
        } else {
            message_text(chunks) + seq!['\n', '\n'] + said
        },
        said.is_suffix_of(message_text(chunks.push(ChunkView::Message(said)))),
    decreases more.len(),
{
    let message = ChunkView::Message(said);
    let thought = ChunkView::Thought(said);
    assert(seq![message].drop_last() =~= seq![]);
    assert(seq![thought].drop_last() =~= seq![]);
    reveal_with_fuel(message_text, 2);
    assert(message_text(seq![message]) =~= said);
    assert(chunks.push(message).drop_last() =~= chunks);
    assert(chunks.push(thought).drop_last() =~= chunks);
    let after = message_text(chunks.push(message));
    assert(said =~= after.subrange(after.len() - said.len(), after.len() as int));
    if more.len() == 0 {
        assert(chunks + more =~= chunks);
        assert(more =~= seq![]);
    } else {
        lemma_message_text(chunks, more.drop_last(), said);
        assert((chunks + more).drop_last() =~= chunks + more.drop_last());
        assert((chunks + more).last() == more.last());
        if let ChunkView::Message(text) = more.last() {
            let a = message_text(chunks);
            let b = message_text(more.drop_last());
            let gap = seq!['\n', '\n'];
            assert((a + gap + b) + gap + text =~= a + gap + (b + gap + text));
        }
    }
}

/// The text of an entry is that of its chunks where the entry is an assistant
/// message; no other entry has a text, nor has one that is not there.
pub proof fn lemma_entry_text(entries: Seq<EntryView>, ix: usize)
    ensures
        ix >= entries.len() ==> entry_text(entries, ix) is None,
        ix < entries.len() ==> match entries[ix as int] {
            EntryView::AssistantMessage(chunks) => entry_text(entries, ix) == Some(
                message_text(chunks),
            ),
            EntryView::Other => entry_text(entries, ix) is None,
        },
{
}

/// While the integration is on, `All` narrates every agent, `Never` none, and
/// `Auto` exactly those that have no hooks of the daemon's; while it is off, no
/// agent is narrated.
pub proof fn lemma_who_is_narrated(settings: DontSpeakSettings, hook_wired: bool)
    ensures
        !settings.enabled ==> !allowed(settings, hook_wired),
        settings.enabled && settings.narrate_panel_agents is All ==> allowed(settings, hook_wired),
        settings.enabled && settings.narrate_panel_agents is Never ==> !allowed(
            settings,
            hook_wired,
        ),
        settings.enabled && settings.narrate_panel_agents is Auto ==> (allowed(settings, hook_wired)
            <==> !hook_wired),
{
}

/// An agent has hooks exactly where its name is one of the known ones, letter
/// for letter, or holds the letters q, w, e, n in a row, capital or small.
pub proof fn lemma_who_has_hooks(agent_id: Seq<char>, wired_agents: Seq<Seq<char>>)
    ensures
        hook_wired(agent_id, wired_agents) <==> {
            ||| exists|i: int| 0 <= i < wired_agents.len() && #[trigger] wired_agents[i] == agent_id
            ||| exists|at: int|
                0 <= at && at + 4 <= agent_id.len() && {
                    &&& #[trigger] agent_id[at] == 'q' || agent_id[at] == 'Q'
                    &&& agent_id[at + 1] == 'w' || agent_id[at + 1] == 'W'
                    &&& agent_id[at + 2] == 'e' || agent_id[at + 2] == 'E'
                    &&& agent_id[at + 3] == 'n' || agent_id[at + 3] == 'N'
                }
        },
{
    reveal_strlit("qwen");
    let name = "qwen"@;
    let lower = ascii_lower_text(agent_id);
    assert forall|c: char|
        {
            &&& #[trigger] ascii_lower(c) == 'q' <==> c == 'q' || c == 'Q'
            &&& ascii_lower(c) == 'w' <==> c == 'w' || c == 'W'
            &&& ascii_lower(c) == 'e' <==> c == 'e' || c == 'E'
            &&& ascii_lower(c) == 'n' <==> c == 'n' || c == 'N'
        } by {}
    assert(name.len() == 4 && name[0] == 'q' && name[1] == 'w' && name[2] == 'e' && name[3]
        == 'n');
    if holds(lower, name) {
        let at = choose|at: int| holds_at(lower, name, at);
        let found = lower.subrange(at, at + 4);
        assert(found[0] == lower[at]);
        assert(found[1] == lower[at + 1]);
        assert(found[2] == lower[at + 2]);
        assert(found[3] == lower[at + 3]);
        assert(agent_id[at] == 'q' || agent_id[at] == 'Q');
    }
    assert forall|at: int|
        0 <= at && at + 4 <= agent_id.len() && {
            &&& #[trigger] agent_id[at] == 'q' || agent_id[at] == 'Q'
            &&& agent_id[at + 1] == 'w' || agent_id[at + 1] == 'W'
            &&& agent_id[at + 2] == 'e' || agent_id[at + 2] == 'E'
            &&& agent_id[at + 3] == 'n' || agent_id[at + 3] == 'N'
        } implies holds(lower, name) by {
        assert(lower.subrange(at, at + 4) =~= name);
        assert(holds_at(lower, name, at));
    }
}

/// The user's own words are told where one of their characters is no white
/// space; otherwise, and where there are none, the words of the editor are.
pub proof fn lemma_what_is_told(own: Option<String>)
    ensures
        own is None ==> told_text(own) == EMBEDDED_NARRATION_SPEC@,
        own matches Some(text) ==> {
            &&& blank(text@) ==> told_text(own) == EMBEDDED_NARRATION_SPEC@
            &&& !blank(text@) ==> told_text(own) == text@
        },
{
}

/// The batch of an entry: the session as it is, a key of the session, the
/// generation and the index in decimal with a hash between, and the text.
pub proof fn lemma_batch_of_entry(state: NarratorView, ix: usize, text: Seq<char>, is_final: bool)
    ensures
        batch_of(state, ix, text, is_final) == (RequestView::NarrateBatch {
            session: state.session,
            key: state.session + seq!['#'] + decimal_text(state.generation as nat) + seq!['#']
                + decimal_text(ix as nat),
            text,
            is_final,
        }),
{
}

/// What running out of an entry's timer does: the entry's text is no longer
/// due; and where the timer is of this generation and the agent is narrated, the
/// sink is asked, and gets the entry's text as it is now where the sink is
/// available and the entry says something.
pub proof fn lemma_timer_runs_out(
    narration: Narration,
    thread: ThreadView,
    ix: usize,
    generation: u64,
    allow: bool,
    available: bool,
)
    requires
        well_formed(narration.state),
    ensures
        ({
            let state = narration.state;
            let next = fired(narration, thread, ix, generation, allow, available);
            let asks = allow && generation == state.generation;
            let asked = narration.calls.push(SinkCall::Available(available));
            &&& next.state == (NarratorView { pending: next.state.pending, ..state })
            &&& forall|x: usize| #[trigger]
                next.state.pending.contains(x) <==> state.pending.contains(x) && x != ix
            &&& !asks ==> next.calls == narration.calls
            &&& asks && !available ==> next.calls == asked
            &&& asks && available && ix >= thread.entries.len() ==> next.calls == asked
            &&& asks && available && ix < thread.entries.len() ==> match thread.entries[ix as int] {
                EntryView::AssistantMessage(chunks) => if blank(message_text(chunks)) {
                    next.calls == asked
                } else {
                    next.calls == asked.push(
                        SinkCall::Sent(
                            RequestView::NarrateBatch {
                                session: state.session,
                                key: batch_key(state.session, generation as nat, ix as nat),
                                text: message_text(chunks),
                                is_final: false,
                            },
                        ),
                    )
                },
                EntryView::Other => next.calls == asked,
            }
        }),
{
    lemma_without_index(narration.state.pending, ix);
}

/// What a new or changed entry does: where the agent is narrated, the sink is
/// asked; where it is available and the entry is an assistant message, the entry
/// has changed in this turn and its text is due. Its timer is started exactly
/// where the text was not due before. A new entry is the last one.
pub proof fn lemma_entry_changes(
    narration: Narration,
    thread: ThreadView,
    ix: usize,
    allow: bool,
    answers: Seq<bool>,
)
    requires
        well_formed(narration.state),
    ensures
        ({
            let state = narration.state;
            let event = ThreadEvent::EntryUpdated(ix);
            let next = narrated(narration, thread, event, allow, answers);
            let timers = timers_for(state, next.state, thread, event);
            let taken = allow && answers[0] && ix < thread.entries.len()
                && thread.entries[ix as int] is AssistantMessage;
            &&& allow ==> next.calls == narration.calls.push(SinkCall::Available(answers[0]))
            &&& !allow ==> next.calls == narration.calls
            &&& next.state == (NarratorView {
                touched: next.state.touched,
                pending: next.state.pending,
                ..state
            })
            &&& forall|x: usize| #[trigger]
                next.state.touched.contains(x) <==> state.touched.contains(x) || (taken && x == ix)
            &&& forall|x: usize| #[trigger]
                next.state.pending.contains(x) <==> state.pending.contains(x) || (taken && x == ix)
            &&& !timers.cancel
            &&& taken && !state.pending.contains(ix) ==> timers.start == Some(ix)
            &&& !(taken && !state.pending.contains(ix)) ==> timers.start is None
        }),
        thread.entries.len() == 0 ==> narrated(
            narration,
            thread,
            ThreadEvent::NewEntry,
            allow,
            answers,
        ) == narration,
        0 < thread.entries.len() <= usize::MAX ==> {
            let last = ThreadEvent::EntryUpdated((thread.entries.len() - 1) as usize);
            let next = narrated(narration, thread, ThreadEvent::NewEntry, allow, answers);
            &&& next == narrated(narration, thread, last, allow, answers)
            &&& timers_for(narration.state, next.state, thread, ThreadEvent::NewEntry)
                == timers_for(narration.state, next.state, thread, last)
        },
{
    lemma_with_index(narration.state.touched, ix);
    lemma_with_index(narration.state.pending, ix);
}

/// What the removal of entries does: a new generation starts, in which nothing
/// has changed and nothing is due. All timers are cancelled, and nothing is sent.
pub proof fn lemma_entries_are_removed(
    narration: Narration,
    thread: ThreadView,
    allow: bool,
    answers: Seq<bool>,
)
    ensures
        ({
            let state = narration.state;
            let event = ThreadEvent::EntriesRemoved;
            let next = narrated(narration, thread, event, allow, answers);
            let timers = timers_for(state, next.state, thread, event);
            &&& next.calls == narration.calls
            &&& next.state.generation == if state.generation == u64::MAX {
                0
            } else {
                state.generation + 1
            }
            &&& next.state.touched.len() == 0
            &&& next.state.pending.len() == 0
            &&& next.state.session == state.session
            &&& next.state.hook_wired == state.hook_wired
            &&& next.state.was_generating == state.was_generating
            &&& timers.cancel && timers.start is None
        }),
{
}

/// What a change of the thread's status does: where the thread starts to
/// generate and the agent is narrated, the sink is asked, and where it is
/// available, the session is marked as active. Whether the thread generates is
/// remembered in any case. Timers run on.
pub proof fn lemma_status_changes(
    narration: Narration,
    thread: ThreadView,
    allow: bool,
    answers: Seq<bool>,
)
    ensures
        ({
            let state = narration.state;
            let event = ThreadEvent::StatusChanged;
            let next = narrated(narration, thread, event, allow, answers);
            let timers = timers_for(state, next.state, thread, event);
            let asks = thread.generating && !state.was_generating && allow;
            let asked = narration.calls.push(SinkCall::Available(answers[0]));
            &&& next.state == (NarratorView { was_generating: thread.generating, ..state })
            &&& !asks ==> next.calls == narration.calls
            &&& asks && !answers[0] ==> next.calls == asked
            &&& asks && answers[0] ==> next.calls == asked.push(
                SinkCall::Sent(
                    RequestView::MarkActive { session: Some(state.session), synthetic: false },
                ),
            )
            &&& !timers.cancel && timers.start is None
        }),
{
}

/// What the close of the thread does: where the agent is narrated and the sink
/// is available, the session is ended, and the state stays as it is. Any other
/// event of the thread changes nothing.
pub proof fn lemma_thread_closes(
    narration: Narration,
    thread: ThreadView,
    allow: bool,
    available: bool,
    answers: Seq<bool>,
)
    ensures
        ({
            let next = ended(narration, allow, available);
            let asked = narration.calls.push(SinkCall::Available(available));
            &&& next.state == narration.state
            &&& !allow ==> next.calls == narration.calls
            &&& allow && !available ==> next.calls == asked
            &&& allow && available ==> next.calls == asked.push(
                SinkCall::Sent(
                    RequestView::SessionEnd { session: Some(narration.state.session) },
                ),
            )
        }),
        narrated(narration, thread, ThreadEvent::Other, allow, answers) == narration,
        ({
            let timers = timers_for(
                narration.state,
                narration.state,
                thread,
                ThreadEvent::Other,
            );
            !timers.cancel && timers.start is None
        }),
{
}

/// What the end of a turn sends for one of the entries that changed in it.
pub open spec fn sends_of(
    state: NarratorView,
    entries: Seq<EntryView>,
    at: int,
    available: bool,
) -> Option<RequestView> {
    let ix = state.touched[at];
    if available && ix < entries.len() {
        match entries[ix as int] {
            EntryView::AssistantMessage(chunks) => if blank(message_text(chunks)) {
                None
            } else {
                Some(
                    RequestView::NarrateBatch {
                        session: state.session,
                        key: batch_key(state.session, state.generation as nat, ix as nat),
                        text: message_text(chunks),
                        is_final: at == state.touched.len() - 1,
                    },
                )
            },
            EntryView::Other => None,
        }
    } else {
        None
    }
}

/// Requests are those of the picked entries, in ascending order and one each;
/// picked are, among the first `count`, the entries that send something.
pub open spec fn picked(
    state: NarratorView,
    entries: Seq<EntryView>,
    answers: Seq<bool>,
    count: nat,
    requests: Seq<RequestView>,
    picks: Seq<int>,
) -> bool {
    &&& picks.len() == requests.len()
    &&& forall|i: int, j: int|
        0 <= i < j < picks.len() ==> #[trigger] picks[i] < #[trigger] picks[j]
    &&& forall|j: int|
        0 <= j < picks.len() ==> {
            &&& 0 <= #[trigger] picks[j] < count
            &&& sends_of(state, entries, picks[j], answers[picks[j]]) == Some(requests[j])
        }
    &&& forall|at: int|
        0 <= at < count && (#[trigger] sends_of(state, entries, at, answers[at])) is Some
            ==> picks.contains(at)
}

proof fn lemma_flush_picks(
    narration: Narration,
    state: NarratorView,
    entries: Seq<EntryView>,
    count: nat,
    answers: Seq<bool>,
) -> (picks: Seq<int>)
    requires
        count <= state.touched.len(),
        narration.state.session == state.session,
        narration.state.generation == state.generation,
    ensures
        ({
            let next = flushed(narration, entries, state.touched, count, true, answers);
            let start = sent(narration.calls);
            let all = sent(next.calls);
            &&& start.is_prefix_of(all)
            &&& picked(state, entries, answers, count, all.skip(start.len() as int), picks)
        }),
    decreases count,
{
    let start = sent(narration.calls);
    if count == 0 {
        assert(start.skip(start.len() as int) =~= seq![]);
        seq![]
    } else {
        let at = count - 1;
        let touched = state.touched;
        let before = lemma_flush_picks(narration, state, entries, at as nat, answers);
        let last = flushed(narration, entries, touched, at as nat, true, answers);
        let next = flushed(narration, entries, touched, count, true, answers);
        lemma_flushed_state(narration, entries, touched, at as nat, true, answers);
        lemma_one_batch(last, entries, touched[at], count == touched.len(), true, answers[at]);
        let requests = sent(last.calls).skip(start.len() as int);
        match sends_of(state, entries, at, answers[at]) {
            Some(request) => {
                assert(sent(next.calls) =~= sent(last.calls).push(request));
                assert(sent(next.calls).skip(start.len() as int) =~= requests.push(request));
                assert(sent(next.calls).take(start.len() as int) =~= start) by {
                    assert(sent(last.calls).take(start.len() as int) =~= start);
                }
                let picks = before.push(at);
                assert(picks[before.len() as int] == at);
                assert forall|x: int|
                    0 <= x < count && (#[trigger] sends_of(state, entries, x, answers[x])) is Some implies picks.contains(
                    x,
                ) by {
                    if x < at {
                        assert(before.contains(x));
                        let k = choose|k: int| 0 <= k < before.len() && before[k] == x;
                        assert(picks[k] == x);
                    }
                }
                picks
            },
            None => {
                assert(sent(next.calls) =~= sent(last.calls));
                before
            },
        }
    }
}

/// However a turn ends, the daemon gets one batch of each entry that changed in
/// it and says something, for which the sink was available, in the order of the
/// entries: its whole text, final exactly where it is the last of the entries
/// that changed. It gets nothing else. Nothing is due any more, and all timers
/// are cancelled.
pub proof fn lemma_turn_ends(
    narration: Narration,
    thread: ThreadView,
    event: ThreadEvent,
    allow: bool,
    answers: Seq<bool>,
)
    requires
        event is Stopped || event is Error || event is Refusal,
    ensures
        ({
            let state = narration.state;
            let end = narrated(narration, thread, event, allow, answers);
            let start = sent(narration.calls);
            let timers = timers_for(state, end.state, thread, event);
            &&& end.state == (NarratorView { touched: seq![], pending: seq![], ..state })
            &&& timers.cancel && timers.start is None
            &&& !allow ==> end.calls == narration.calls
            &&& allow ==> start.is_prefix_of(sent(end.calls))
            &&& allow ==> exists|picks: Seq<int>| #[trigger]
                picked(
                    state,
                    thread.entries,
                    answers,
                    state.touched.len(),
                    sent(end.calls).skip(start.len() as int),
                    picks,
                )
        }),
{
    let state = narration.state;
    let cleared = Narration {
        state: NarratorView { touched: seq![], pending: seq![], ..state },
        ..narration
    };
    let count = state.touched.len();
    lemma_flushed_state(cleared, thread.entries, state.touched, count, allow, answers);
    if allow {
        let _ = lemma_flush_picks(cleared, state, thread.entries, count, answers);
    } else {
        lemma_flushed_disallowed(cleared, thread.entries, state.touched, count, answers);
    }
}

/// The end of a turn goes through the entries that changed in it one by one. The
/// sink is asked anew before each; where it is available and the entry says
/// something, it gets the entry's whole text, which is final exactly for the last
/// of these entries, whether the others said something or not.
pub proof fn lemma_flush_goes_through_entries(
    narration: Narration,
    thread: ThreadView,
    count: nat,
    answers: Seq<bool>,
)
    requires
        count < narration.state.touched.len(),
    ensures
        ({
            let state = narration.state;
            let touched = state.touched;
            let entries = thread.entries;
            let start = Narration {
                state: NarratorView { touched: seq![], pending: seq![], ..state },
                ..narration
            };
            let before = flushed(start, entries, touched, count, true, answers);
            let after = flushed(start, entries, touched, count + 1, true, answers);
            let ix = touched[count as int];
            let asked = before.calls.push(SinkCall::Available(answers[count as int]));
            &&& flushed(start, entries, touched, 0, true, answers).calls == narration.calls
            &&& narrated(narration, thread, ThreadEvent::Stopped, true, answers) == flushed(
                start,
                entries,
                touched,
                touched.len(),
                true,
                answers,
            )
            &&& !answers[count as int] || ix >= entries.len() ==> after.calls == asked
            &&& answers[count as int] && ix < entries.len() ==> match entries[ix as int] {
                EntryView::Other => after.calls == asked,
                EntryView::AssistantMessage(chunks) => if blank(message_text(chunks)) {
                    after.calls == asked
                } else {
                    after.calls == asked.push(
                        SinkCall::Sent(
                            RequestView::NarrateBatch {
                                session: state.session,
                                key: batch_key(
                                    state.session,
                                    state.generation as nat,
                                    ix as nat,
                                ),
                                text: message_text(chunks),
                                is_final: count + 1 == touched.len(),
                            },
                        ),
                    )
                },
            }
        }),
{
    let state = narration.state;
    let start = Narration {
        state: NarratorView { touched: seq![], pending: seq![], ..state },
        ..narration
    };
    lemma_flushed_state(start, thread.entries, state.touched, count, true, answers);
}

/// A timer that is started runs for 300 ms, under the generation of its start, and
/// ends the one that the entry had; to cancel ends all that run.
pub proof fn lemma_timers(due: Map<usize, Due>, timers: Timers, at: int, generation: u64, ix: usize)
    ensures
        ({
            let after = timers_set(due, timers, at, generation);
            &&& timers.start == Some(ix) ==> after.dom().contains(ix) && after[ix].at == at + 300
                && after[ix].generation == generation
            &&& timers.start != Some(ix) && timers.cancel ==> !after.dom().contains(ix)
            &&& timers.start != Some(ix) && !timers.cancel ==> (after.dom().contains(ix)
                <==> due.dom().contains(ix))
            &&& timers.start != Some(ix) && !timers.cancel && due.dom().contains(ix) ==> after[ix]
                == due[ix]
        }),
{
}

/// What a thread holds is all of its entries, in their order, and of each
/// assistant message all of its chunks.
pub proof fn lemma_thread_holds(thread: Thread, chunks: Seq<Chunk>, i: int)
    ensures
        thread@.entries.len() == thread.entries@.len(),
        thread@.generating == thread.generating,
        0 <= i < thread.entries@.len() ==> match thread.entries@[i] {
            Entry::AssistantMessage(own) => thread@.entries[i] == EntryView::AssistantMessage(
                chunk_views(own@),
            ),
            Entry::Other => thread@.entries[i] is Other,
        },
        chunk_views(chunks).len() == chunks.len(),
        0 <= i < chunks.len() ==> match chunks[i] {
            Chunk::Message(text) => chunk_views(chunks)[i] == ChunkView::Message(text@),
            Chunk::Thought(text) => chunk_views(chunks)[i] == ChunkView::Thought(text@),
        },
{
}

} // verus!
