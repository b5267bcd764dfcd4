//! The streaming echo passthrough.
//!
//! A transfer relays an inbound byte stream to the outbound stream one chunk
//! at a time: each chunk received is emitted at once and unchanged, so no
//! state ever holds more than the chunk in flight and memory use does not
//! grow with the payload. The ghost logs record what was consumed and what
//! was emitted; the invariant ties them together.

use vstd::prelude::*;

verus! {

/// What the transport reports next for an in-flight transfer.
pub enum StreamEvent {
    /// A chunk of the request body arrived.
    Data(Vec<u8>),
    /// The request body ended cleanly.
    End,
    /// The inbound stream failed mid-transfer.
    Failed,
}

/// What the transfer tells the transport to do in response.
pub enum StreamAction {
    /// Send this chunk on the response body.
    Emit(Vec<u8>),
    /// Complete the response cleanly.
    Finish,
    /// Terminate the response abnormally; never fabricate a valid-looking
    /// tail for a failed source.
    Abort,
}

/// An in-flight body transfer: the transient pairing of an input and an
/// output byte stream for one request. The fields are ghost: a transfer
/// stores no payload bytes.
pub struct EchoTransfer {
    /// The chunks consumed from the inbound stream, in arrival order.
    pub consumed: Ghost<Seq<Seq<u8>>>,
    /// The bytes emitted on the outbound stream so far.
    pub emitted: Ghost<Seq<u8>>,
}

impl EchoTransfer {
    /// The transfer invariant: everything emitted is exactly the
    /// concatenation of the chunks consumed, in order.
    pub open spec fn wf(&self) -> bool {
        self.emitted@ == self.consumed@.flatten()
    }

    /// Starts a transfer for one request; nothing consumed, nothing emitted.
    pub fn begin() -> (t: EchoTransfer)
        ensures
            t.wf(),
            t.consumed@ == Seq::<Seq<u8>>::empty(),
            t.emitted@ == Seq::<u8>::empty(),
    {
        let t = EchoTransfer { consumed: Ghost(Seq::empty()), emitted: Ghost(Seq::empty()) };
        proof {
            assert(Seq::<Seq<u8>>::empty().flatten() =~= Seq::<u8>::empty());
        }
        t
    }

    /// Reacts to one stream event. A data chunk is emitted immediately and
    /// unchanged — the chunk is moved through, never accumulated — so byte
    /// order is preserved and memory is bounded by one chunk.
    pub fn step(&mut self, event: StreamEvent) -> (action: StreamAction)
        requires
            old(self).wf(),
        ensures
            final(self).wf(),
            match event {
                StreamEvent::Data(chunk) => {
                    &&& action matches StreamAction::Emit(out) && out@ == chunk@
                    &&& final(self).consumed@ == old(self).consumed@.push(chunk@)
                    &&& final(self).emitted@ == old(self).emitted@ + chunk@
                },
                StreamEvent::End => {
                    &&& action is Finish
                    &&& final(self).consumed@ == old(self).consumed@
                    &&& final(self).emitted@ == old(self).emitted@
                },
                StreamEvent::Failed => {
                    &&& action is Abort
                    &&& final(self).consumed@ == old(self).consumed@
                    &&& final(self).emitted@ == old(self).emitted@
                },
            },
    {
        match event {
            StreamEvent::Data(chunk) => {
                proof {
                    self.consumed@.lemma_flatten_push(chunk@);
                }
                self.consumed = Ghost(self.consumed@.push(chunk@));
                self.emitted = Ghost(self.emitted@ + chunk@);
                StreamAction::Emit(chunk)
            },
            StreamEvent::End => StreamAction::Finish,
            StreamEvent::Failed => StreamAction::Abort,
        }
    }
}

/// Law: at every point of a transfer, the bytes emitted on the response are
/// exactly the bytes consumed from the request, in order — a transfer that
/// has consumed a whole body `B` has emitted exactly `B`, however `B` was
/// split into chunks.
pub proof fn lemma_passthrough_identity(t: EchoTransfer)
    requires
        t.wf(),
    ensures
        t.emitted@ == t.consumed@.flatten(),
{
}

} // verus!
