//! The per-session relay decisions: what the forwarding loop does with each
//! stream event.
//!
//! One session binds one inbound body stream to one outbound upstream
//! request. The producer side of the session is a state machine: while
//! receiving, every inbound chunk runs through the line reassembly buffer
//! and each complete unit leaves masked; when the inbound stream ends the
//! buffer is flushed once; when it errors, nothing further is flushed and
//! only what was already produced is forwarded. The consumer side maps the
//! upstream outcome to the status the caller receives. The I/O loop that
//! feeds events in and performs the actions lives with the binary.

use vstd::prelude::*;

use crate::masker::mask_text;
use crate::stream::{lossy_text_of, mask_unit, LineBuffer, UNIT_END};

verus! {

/// Where a session's producer side stands.
#[derive(Clone, Copy, Debug, PartialEq, Eq, Structural)]
pub enum SessionPhase {
    /// Chunks are still being pulled from the inbound stream.
    Receiving,
    /// The inbound stream ended and the buffer was flushed; the channel is
    /// to be closed.
    Drained,
    /// The inbound stream errored; the tail was discarded, nothing further
    /// is produced.
    Failed,
}

/// The canonical upstream-failure status the caller receives when the
/// upstream cannot be reached or times out.
pub const GATEWAY_FAILURE_STATUS: u16 = 502;

/// The producer-side state of one relay session.
pub struct RelaySession {
    buf: LineBuffer,
    phase: SessionPhase,
}

impl RelaySession {
    /// The line buffer history is consistent.
    pub closed spec fn wf(&self) -> bool {
        self.buf.wf()
    }

    pub closed spec fn phase(&self) -> SessionPhase {
        self.phase
    }

    /// All bytes received from the inbound stream so far.
    pub closed spec fn received(&self) -> Seq<u8> {
        self.buf.appended_bytes()
    }

    /// The bytes of all units already emitted (masked and pushed on).
    pub closed spec fn produced(&self) -> Seq<u8> {
        self.buf.emitted_bytes()
    }

    /// The retained tail not yet emitted.
    pub closed spec fn tail(&self) -> Seq<u8> {
        self.buf.pending()
    }

    /// A fresh session: receiving, with empty history.
    pub fn new() -> (r: RelaySession)
        ensures
            r.wf(),
            r.phase() == SessionPhase::Receiving,
            r.received() == Seq::<u8>::empty(),
            r.produced() == Seq::<u8>::empty(),
            r.tail() == Seq::<u8>::empty(),
    {
        RelaySession { buf: LineBuffer::new(), phase: SessionPhase::Receiving }
    }

    pub fn phase_now(&self) -> (r: SessionPhase)
        ensures
            r == self.phase(),
    {
        self.phase
    }

    /// One inbound chunk arrived: it goes through the line buffer, and a
    /// complete unit, if one is cut, leaves masked, to be pushed onto the
    /// session's channel. The source bytes of the unit are exactly the
    /// emitted ones, in order, and the retained tail never holds a line
    /// end: every completed line leaves the moment it arrives, cut at the
    /// last line end of the grown tail.
    pub fn on_chunk(&mut self, chunk: &[u8]) -> (unit: Option<String>)
        requires
            old(self).wf(),
            old(self).phase() == SessionPhase::Receiving,
        ensures
            final(self).wf(),
            final(self).phase() == SessionPhase::Receiving,
            final(self).received() == old(self).received() + chunk@,
            forall|i: int|
                0 <= i < final(self).tail().len() ==> final(self).tail()[i] != UNIT_END,
            match unit {
                Some(t) => ({
                    let u = final(self).produced().skip(old(self).produced().len() as int);
                    &&& final(self).produced().len() > old(self).produced().len()
                    &&& final(self).produced() == old(self).produced() + u
                    &&& t@ == mask_text(lossy_text_of(u))
                    &&& final(self).produced().last() == UNIT_END
                    &&& u + final(self).tail() == old(self).tail() + chunk@
                }),
                None => {
                    &&& final(self).produced() == old(self).produced()
                    &&& final(self).tail() == old(self).tail() + chunk@
                },
            },
    {
        match self.buf.append(chunk) {
            Some(u) => {
                let masked = mask_unit(u.as_slice());
                proof {
                    assert(self.buf.emitted_bytes().skip(
                        old(self).buf.emitted_bytes().len() as int,
                    ) =~= u@);
                }
                Some(masked)
            },
            None => None,
        }
    }

    /// The inbound stream ended without error: the buffer is flushed once
    /// and its masked tail, if any, is the last unit pushed before the
    /// channel closes. Afterwards every received byte has been produced.
    pub fn on_end(&mut self) -> (unit: Option<String>)
        requires
            old(self).wf(),
            old(self).phase() == SessionPhase::Receiving,
        ensures
            final(self).wf(),
            final(self).phase() == SessionPhase::Drained,
            final(self).received() == old(self).received(),
            final(self).produced() == final(self).received(),
            final(self).tail() == Seq::<u8>::empty(),
            match unit {
                Some(t) => t@ == mask_text(lossy_text_of(old(self).tail())) && old(
                    self,
                ).tail().len() > 0,
                None => old(self).tail().len() == 0,
            },
    {
        self.phase = SessionPhase::Drained;
        match self.buf.flush() {
            Some(u) => Some(mask_unit(u.as_slice())),
            None => None,
        }
    }

    /// The inbound stream errored: the session stops without flushing
    /// further. Units already produced stay produced and are still
    /// forwarded; the retained tail is never emitted.
    pub fn on_error(&mut self)
        requires
            old(self).wf(),
            old(self).phase() == SessionPhase::Receiving,
        ensures
            final(self).wf(),
            final(self).phase() == SessionPhase::Failed,
            final(self).received() == old(self).received(),
            final(self).produced() == old(self).produced(),
            final(self).tail() == old(self).tail(),
    {
        self.phase = SessionPhase::Failed;
    }
}

/// Maps the upstream call's outcome to the status the caller receives: a
/// reached upstream has its status copied through verbatim; a connection
/// failure or timeout becomes the canonical gateway-failure status, never a
/// hang and never a synthesized success.
pub fn upstream_response_status(upstream: Option<u16>) -> (r: u16)
    ensures
        upstream matches Some(sc) ==> r == sc,
        upstream is None ==> r == GATEWAY_FAILURE_STATUS,
{
    match upstream {
        Some(sc) => sc,
        None => GATEWAY_FAILURE_STATUS,
    }
}

} // verus!
