//! The window operations that dictation needs.

use vstd::prelude::*;

verus! {

/// A window, by its number.
pub type WindowId = u64;

/// The window operations that dictation needs. The editor carries them out on
/// its windows, and acks on the subscription to the daemon.
pub trait DictationWindowOps {
    /// What the operations work on.
    type Context;

    /// The window that is active on the platform now, if any.
    fn active_window(&self, cx: &Self::Context) -> Option<WindowId>;

    /// Sets marked text in the window's focused input. False where there is no
    /// such input, or it takes no text.
    fn set_marked_text(&self, window: WindowId, text: &str, cx: &mut Self::Context) -> bool;

    /// Removes the marked text in the window's focused input.
    fn clear_marked_text(&self, window: WindowId, cx: &mut Self::Context) -> bool;

    /// Inserts text into the window's focused input as though typed, in place
    /// of any marked text. False where it cannot be inserted.
    fn insert_text(&self, window: WindowId, text: &str, cx: &mut Self::Context) -> bool;

    /// Presses Enter in the window.
    fn dispatch_enter(&self, window: WindowId, cx: &mut Self::Context) -> bool;

    /// Acknowledges a deliver event to the daemon.
    fn ack(&self, seq: u64, ok: bool, cx: &mut Self::Context);
}

/// A window operation that was called, with its answer where that counts.
#[allow(inconsistent_fields)]
pub enum Call {
    Active { window: Option<WindowId> },
    SetMarked { window: WindowId, text: Seq<char>, accepted: bool },
    ClearMarked { window: WindowId },
    Insert { window: WindowId, text: Seq<char>, inserted: bool },
    Enter { window: WindowId },
    Ack { seq: u64, ok: bool },
}

/// Window operations, with a record of the calls: each method makes one call
/// and records it, with its answer. The record exists in proofs alone. Proofs
/// know what was recorded; that it is what the operations were handed is plain
/// from the methods' bodies and is not proved.
pub struct Recorded<O> {
    ops: O,
    calls: Ghost<Seq<Call>>,
}

impl<O> View for Recorded<O> {
    type V = Seq<Call>;

    closed spec fn view(&self) -> Seq<Call> {
        self.calls@
    }
}

impl<O: DictationWindowOps> Recorded<O> {
    pub fn new(ops: O) -> (recorded: Recorded<O>)
        ensures
            recorded@ == Seq::<Call>::empty(),
    {
        Recorded { ops, calls: Ghost(Seq::empty()) }
    }

    pub fn active_window(&mut self, cx: &O::Context) -> (window: Option<WindowId>)
        ensures
            final(self)@ == old(self)@.push(Call::Active { window }),
    {
        let window = self.ops.active_window(cx);
        self.calls = Ghost(self.calls@.push(Call::Active { window }));
        window
    }

    pub fn set_marked_text(&mut self, window: WindowId, text: &str, cx: &mut O::Context) -> (accepted:
        bool)
        ensures
            final(self)@ == old(self)@.push(Call::SetMarked { window, text: text@, accepted }),
    {
        let accepted = self.ops.set_marked_text(window, text, cx);
        self.calls = Ghost(self.calls@.push(Call::SetMarked { window, text: text@, accepted }));
        accepted
    }

    pub fn clear_marked_text(&mut self, window: WindowId, cx: &mut O::Context) -> (cleared: bool)
        ensures
            final(self)@ == old(self)@.push(Call::ClearMarked { window }),
    {
        let cleared = self.ops.clear_marked_text(window, cx);
        self.calls = Ghost(self.calls@.push(Call::ClearMarked { window }));
        cleared
    }

    pub fn insert_text(&mut self, window: WindowId, text: &str, cx: &mut O::Context) -> (inserted:
        bool)
        ensures
            final(self)@ == old(self)@.push(Call::Insert { window, text: text@, inserted }),
    {
        let inserted = self.ops.insert_text(window, text, cx);
        self.calls = Ghost(self.calls@.push(Call::Insert { window, text: text@, inserted }));
        inserted
    }

    pub fn dispatch_enter(&mut self, window: WindowId, cx: &mut O::Context) -> (dispatched: bool)
        ensures
            final(self)@ == old(self)@.push(Call::Enter { window }),
    {
        let dispatched = self.ops.dispatch_enter(window, cx);
        self.calls = Ghost(self.calls@.push(Call::Enter { window }));
        dispatched
    }

    pub fn ack(&mut self, seq: u64, ok: bool, cx: &mut O::Context)
        ensures
            final(self)@ == old(self)@.push(Call::Ack { seq, ok }),
    {
        self.ops.ack(seq, ok, cx);
        self.calls = Ghost(self.calls@.push(Call::Ack { seq, ok }));
    }
}

} // verus!
