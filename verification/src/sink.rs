//! Where narration requests go.

use crate::protocol::{Request, RequestView};
use vstd::prelude::*;

verus! {

/// Where narration requests go: the editor sends them to the daemon.
pub trait NarrationSink {
    /// What the sink works on.
    type Context;

    /// Whether the daemon can receive narration requests now.
    fn is_available(&self, cx: &Self::Context) -> bool;

    /// Sends a request to the daemon, and does not wait for the reply.
    fn send(&self, request: Request, cx: &mut Self::Context);
}

/// A call of a sink, with its answer.
pub enum SinkCall {
    Available(bool),
    Sent(RequestView),
}

/// A sink, with a record of the calls: each method makes one call and records
/// it, with its answer. The record exists in proofs alone. Proofs know what was
/// recorded; that it is what the sink was handed is plain from the methods'
/// bodies and is not proved.
pub struct RecordedSink<S> {
    sink: S,
    calls: Ghost<Seq<SinkCall>>,
}

impl<S> View for RecordedSink<S> {
    type V = Seq<SinkCall>;

    closed spec fn view(&self) -> Seq<SinkCall> {
        self.calls@
    }
}

impl<S: NarrationSink> RecordedSink<S> {
    pub fn new(sink: S) -> (recorded: RecordedSink<S>)
        ensures
            recorded@ == Seq::<SinkCall>::empty(),
    {
        RecordedSink { sink, calls: Ghost(Seq::empty()) }
    }

    pub fn is_available(&mut self, cx: &S::Context) -> (available: bool)
        ensures
            final(self)@ == old(self)@.push(SinkCall::Available(available)),
    {
        let available = self.sink.is_available(cx);
        self.calls = Ghost(self.calls@.push(SinkCall::Available(available)));
        available
    }

    pub fn send(&mut self, request: Request, cx: &mut S::Context)
        ensures
            final(self)@ == old(self)@.push(SinkCall::Sent(request@)),
    {
        let ghost sent = request@;
        self.sink.send(request, cx);
        self.calls = Ghost(self.calls@.push(SinkCall::Sent(sent)));
    }
}

} // verus!
