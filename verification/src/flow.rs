//! Credit-based flow control.
//!
//! The receiver periodically reports how much of its ingestion buffer is
//! occupied (`remaining`) and how large that buffer is (`maximum`), in a
//! five-byte feedback datagram.  The sender consults this state before
//! releasing the next frame: while nothing has ever been reported it sends
//! freely, and once a report has arrived it only sends while at least one
//! block of space is left, advancing its local estimate optimistically after
//! each authorized send until fresh feedback overwrites it.

use vstd::prelude::*;

verus! {

/// The receiver's last self-reported ingestion-buffer occupancy, or
/// `Unknown` before any feedback has ever arrived (and again after a
/// receive failure, so that a silent peer never stalls the sender).
#[derive(Clone, Copy, Debug, PartialEq, Eq, Structural)]
pub enum CreditState {
    Unknown,
    Known { remaining: u16, maximum: u16 },
}

/// What the pipeline loop should do next: send the pending frame, and/or
/// poll the transport for a fresh feedback datagram.
#[derive(Clone, Copy, Debug, PartialEq, Eq, Structural)]
pub struct SendDecision {
    pub send: bool,
    pub poll_feedback: bool,
}

/// A big-endian `u16` read from two bytes.
pub open spec fn be16(hi: u8, lo: u8) -> u16 {
    (hi * 256 + lo) as u16
}

/// Feedback replaces, never merges: whatever the previous state was, the
/// datagram's values become the whole state.
pub open spec fn spec_apply_feedback(state: CreditState, remaining: u16, maximum: u16) -> CreditState {
    CreditState::Known { remaining, maximum }
}

/// Budget policy: with no report yet, always authorize; with a report,
/// authorize only while a full block of space is still free.  A report
/// claiming more occupancy than capacity counts as "no space".
pub open spec fn spec_has_budget(state: CreditState, block_size: u16) -> bool {
    match state {
        CreditState::Unknown => true,
        CreditState::Known { remaining, maximum } => remaining + block_size <= maximum,
    }
}

/// Tracks the credit state together with the block size that one
/// authorized send is assumed to occupy on the receiver.
pub struct FlowController {
    pub state: CreditState,
    pub block_size: u16,
}

impl FlowController {
    /// A controller that has never heard from the receiver.
    pub fn new(block_size: u16) -> (r: FlowController)
        ensures
            r.state == CreditState::Unknown,
            r.block_size == block_size,
    {
        FlowController { state: CreditState::Unknown, block_size }
    }

    /// In `Unknown` state this always returns true: the design favors
    /// progress until the first feedback establishes a ceiling.
    pub fn has_budget(&self) -> (r: bool)
        ensures
            r == spec_has_budget(self.state, self.block_size),
    {
        match self.state {
            CreditState::Unknown => true,
            CreditState::Known { remaining, maximum } => {
                remaining <= maximum && maximum - remaining >= self.block_size
            },
        }
    }

    /// Fold one feedback report into the state.  The report is
    /// authoritative: it overwrites local bookkeeping entirely.
    pub fn apply_feedback(&mut self, remaining: u16, maximum: u16)
        ensures
            final(self).state == spec_apply_feedback(old(self).state, remaining, maximum),
            final(self).block_size == old(self).block_size,
    {
        self.state = CreditState::Known { remaining, maximum };
    }

    /// A receive failure or timeout signals that the peer may be gone:
    /// fall back to `Unknown` rather than throttling on stale data.
    pub fn on_receive_failure(&mut self)
        ensures
            final(self).state == CreditState::Unknown,
            final(self).block_size == old(self).block_size,
    {
        self.state = CreditState::Unknown;
    }

    /// After an authorized send, optimistically count one block as
    /// occupied; the next feedback report will correct the estimate.
    pub fn note_sent(&mut self)
        requires
            spec_has_budget(old(self).state, old(self).block_size),
        ensures
            final(self).block_size == old(self).block_size,
            final(self).state == match old(self).state {
                CreditState::Unknown => CreditState::Unknown,
                CreditState::Known { remaining, maximum } => CreditState::Known {
                    remaining: (remaining + old(self).block_size) as u16,
                    maximum,
                },
            },
    {
        match self.state {
            CreditState::Unknown => {},
            CreditState::Known { remaining, maximum } => {
                self.state = CreditState::Known {
                    remaining: remaining + self.block_size,
                    maximum,
                };
            },
        }
    }

    /// One gating step of the pipeline loop.  With no report yet, send and
    /// then poll for feedback.  With a report but no budget, skip the send
    /// and poll.  With budget, authorize the send and advance the estimate
    /// by one block; the re-check on the advanced estimate allows further
    /// back-to-back sends only while a full block of reported room is left,
    /// so a burst never outruns the receiver's last reported free space,
    /// and polling resumes the moment it would.
    pub fn decide_send(&mut self) -> (d: SendDecision)
        ensures
            final(self).block_size == old(self).block_size,
            old(self).state == CreditState::Unknown ==> {
                &&& final(self).state == CreditState::Unknown
                &&& d.send
                &&& d.poll_feedback
            },
            old(self).state is Known && !spec_has_budget(old(self).state, old(self).block_size)
                ==> {
                &&& final(self).state == old(self).state
                &&& !d.send
                &&& d.poll_feedback
            },
            old(self).state is Known && spec_has_budget(old(self).state, old(self).block_size)
                ==> {
                &&& final(self).state == CreditState::Known {
                    remaining: (old(self).state->Known_remaining + old(self).block_size) as u16,
                    maximum: old(self).state->Known_maximum,
                }
                &&& d.send
                &&& d.poll_feedback == !spec_has_budget(final(self).state, old(self).block_size)
            },
    {
        match self.state {
            CreditState::Unknown => SendDecision { send: true, poll_feedback: true },
            CreditState::Known { remaining, maximum } => {
                if remaining <= maximum && maximum - remaining >= self.block_size {
                    self.state = CreditState::Known {
                        remaining: remaining + self.block_size,
                        maximum,
                    };
                    let still: bool = self.has_budget();
                    SendDecision { send: true, poll_feedback: !still }
                } else {
                    SendDecision { send: false, poll_feedback: true }
                }
            },
        }
    }

    /// Fold one raw datagram into the state.  Exactly the well-formed
    /// five-byte reports count; anything of another length is ignored and
    /// the state is left untouched.
    pub fn process_datagram(&mut self, data: &[u8])
        ensures
            final(self).block_size == old(self).block_size,
            data@.len() == 5 ==> final(self).state == spec_apply_feedback(
                old(self).state,
                be16(data@[1], data@[2]),
                be16(data@[3], data@[4]),
            ),
            data@.len() != 5 ==> final(self).state == old(self).state,
    {
        match parse_feedback(data) {
            Some((remaining, maximum)) => self.apply_feedback(remaining, maximum),
            None => {},
        }
    }
}

/// Decode a feedback datagram `[type:1][remaining:u16 BE][maximum:u16 BE]`.
/// Returns the pair exactly when the datagram is five bytes long.
pub fn parse_feedback(data: &[u8]) -> (r: Option<(u16, u16)>)
    ensures
        data@.len() == 5 ==> r == Some((be16(data@[1], data@[2]), be16(data@[3], data@[4]))),
        data@.len() != 5 ==> r is None,
{
    if data.len() == 5 {
        let remaining: u16 = (data[1] as u16) * 256 + (data[2] as u16);
        let maximum: u16 = (data[3] as u16) * 256 + (data[4] as u16);
        Some((remaining, maximum))
    } else {
        None
    }
}

/// Feedback processing is idempotent under replay: applying the same
/// report twice in a row leaves the state exactly where the first
/// application put it.
pub proof fn lemma_feedback_replay_idempotent(state: CreditState, remaining: u16, maximum: u16)
    ensures
        spec_apply_feedback(spec_apply_feedback(state, remaining, maximum), remaining, maximum)
            == spec_apply_feedback(state, remaining, maximum),
{
}

/// Before any feedback, every send is authorized, whatever the block size.
pub proof fn lemma_unknown_always_authorizes(block_size: u16)
    ensures
        spec_has_budget(CreditState::Unknown, block_size),
{
}

/// The first feedback report moves the state to `Known` with exactly the
/// datagram's values — no residue of the `Unknown` state survives.
pub proof fn lemma_first_feedback_exact(remaining: u16, maximum: u16)
    ensures
        spec_apply_feedback(CreditState::Unknown, remaining, maximum) == (CreditState::Known {
            remaining,
            maximum,
        }),
{
}

} // verus!
