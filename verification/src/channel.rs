use crate::completion_item::Completions;
use crate::cursor::Cursor;
use crate::sources::Sources;
use vstd::prelude::*;

verus! {

/// The request-coordination states of a session: at most one live
/// request exists at any time.
#[derive(Clone, Copy, Debug, PartialEq, Eq, Structural)]
pub enum ChannelState {
    /// No request is in flight.
    Idle,
    /// The request with this sequence number waits for its sources.
    Pending {
        /// The live request's sequence number.
        seq: u64,
    },
    /// The request with this sequence number resolved; its merged result is
    /// on its way to the user interface.
    Delivering {
        /// The resolving request's sequence number.
        seq: u64,
    },
}

/// The coordination layer of a session: turns edit events into
/// sequence-numbered completion requests, supersedes the in-flight request
/// when a newer one arrives ("last request wins"), and hands exactly the
/// live request's merged result on to the user interface. The host-side
/// event loop performs the actual fan-out between `on_text_changed` and
/// `resolve`, so the host's own loop never blocks on a source.
#[derive(Debug)]
pub struct Channel {
    /// The registry the requests fan out to; read-only during request
    /// handling.
    pub sources: Sources,
    /// The coordination state.
    pub state: ChannelState,
    /// The sequence number the next request will get.
    pub next_seq: u64,
    /// The sequence number of the last delivered result; 0 before any.
    pub last_delivered: u64,
}

impl Channel {
    /// The session invariant: a non-empty registry, sequence numbers that
    /// only grow, and a live request that is newer than everything
    /// delivered and older than everything still to come.
    pub open spec fn wf(&self) -> bool {
        &&& self.sources.wf()
        &&& 1 <= self.next_seq
        &&& self.last_delivered < self.next_seq
        &&& (self.state matches ChannelState::Pending { seq } ==> self.last_delivered < seq
            < self.next_seq)
        &&& (self.state matches ChannelState::Delivering { seq } ==> self.last_delivered < seq
            < self.next_seq)
    }

    /// A new session channel over a non-empty registry: idle, sequence
    /// numbers starting at 1. A session without sources never gets a
    /// channel (see `EmptyRegistry`), so the registry is required well
    /// formed.
    pub fn new(sources: Sources) -> (c: Channel)
        requires
            sources.wf(),
        ensures
            c.wf(),
            c.sources == sources,
            c.state is Idle,
            c.next_seq == 1,
            c.last_delivered == 0,
    {
        Channel { sources, state: ChannelState::Idle, next_seq: 1, last_delivered: 0 }
    }

    /// One edit event as a relation between channel values: the new request
    /// takes the next sequence number and supersedes whatever was in
    /// flight; nothing else changes.
    pub open spec fn spec_request(pre: Channel, post: Channel, seq: u64) -> bool {
        &&& pre.next_seq < u64::MAX
        &&& seq == pre.next_seq
        &&& post.state == (ChannelState::Pending { seq })
        &&& post.next_seq == pre.next_seq + 1
        &&& post.last_delivered == pre.last_delivered
        &&& post.sources == pre.sources
    }

    /// Entry point for an edit event: builds the cursor snapshot and
    /// starts the request that supersedes any in-flight one. Returns the
    /// new sequence number and the snapshot for the host to fan out.
    /// Fire-and-forget for the caller: delivery happens at `resolve`.
    pub fn on_text_changed(&mut self, current_line_text: String, cursor_byte_offset: usize) -> (r:
        (u64, Cursor))
        requires
            old(self).wf(),
            old(self).next_seq < u64::MAX,
        ensures
            final(self).wf(),
            Self::spec_request(*old(self), *final(self), r.0),
            r.1.wf(),
            r.1.line_before_cursor@ == current_line_text@,
            r.1.byte_offset <= cursor_byte_offset,
    {
        let cursor = Cursor::capture(current_line_text, cursor_byte_offset);
        let seq = self.next_seq;
        self.state = ChannelState::Pending { seq };
        self.next_seq = self.next_seq + 1;
        (seq, cursor)
    }

    /// Whether a result for request `seq` would reach the user interface
    /// now: only the live request's result may.
    pub open spec fn spec_delivers(c: Channel, seq: u64) -> bool {
        c.state == (ChannelState::Pending { seq })
    }

    /// Fan-in of request `seq`: hands the merged result on exactly when
    /// `seq` is still the live request; the result of a superseded request
    /// is discarded, never delivered, however late it arrives. On delivery
    /// the channel moves to `Delivering`; `delivered` completes the
    /// hand-over.
    pub fn resolve(&mut self, seq: u64, merged: Completions) -> (r: Option<Completions>)
        requires
            old(self).wf(),
        ensures
            final(self).wf(),
            Self::spec_delivers(*old(self), seq) ==> r == Some(merged) && final(self).state == (
            ChannelState::Delivering { seq }) && final(self).next_seq == old(self).next_seq
                && final(self).last_delivered == old(self).last_delivered && final(self).sources
                == old(self).sources,
            !Self::spec_delivers(*old(self), seq) ==> r is None && *final(self) == *old(self),
    {
        let live = match self.state {
            ChannelState::Pending { seq: live } => live == seq,
            _ => false,
        };
        if live {
            self.state = ChannelState::Delivering { seq };
            Some(merged)
        } else {
            None
        }
    }

    /// The user interface took the result: the channel returns to idle.
    /// The delivered sequence number grows strictly, so results reach the
    /// user interface in request order.
    pub fn delivered(&mut self)
        requires
            old(self).wf(),
            old(self).state matches ChannelState::Delivering { .. },
        ensures
            final(self).wf(),
            final(self).state is Idle,
            final(self).last_delivered == old(self).state->Delivering_seq,
            old(self).last_delivered < final(self).last_delivered,
            final(self).next_seq == old(self).next_seq,
            final(self).sources == old(self).sources,
    {
        let seq = match self.state {
            ChannelState::Delivering { seq } => seq,
            _ => 0,
        };
        self.state = ChannelState::Idle;
        self.last_delivered = seq;
    }

    /// Last request wins: once a second request was issued, the first
    /// request's result can never be delivered again, whenever its sources
    /// resolve.
    pub proof fn lemma_last_request_wins(c0: Channel, c1: Channel, s1: u64, c2: Channel, s2: u64)
        requires
            Self::spec_request(c0, c1, s1),
            Self::spec_request(c1, c2, s2),
        ensures
            s2 != s1,
            !Self::spec_delivers(c2, s1),
    {
    }
}

} // verus!
