//! Round synchronization: the per-server state machine that sequences
//! collect → shuffle → await the next hop → return → drain. Each transition
//! is a method with an exact contract, so that whatever threads and wakeups
//! drive it, no submission is lost or duplicated, each round's buffers stay
//! isolated from the next round's, and replies ship only once the backward
//! pass has published them. The surrounding process supplies the locking,
//! the condition-variable plumbing and the network relaying; it must relay
//! outside any held lock, and re-check `remote_round_ended` in a loop against
//! spurious wakeups.

use vstd::prelude::*;

use crate::message;
use crate::message::Deaddrop;
use crate::onion::Message;

verus! {

/// Where a server stands in its round cycle. The cycle never terminates: a
/// server runs rounds until the process shuts down.
#[derive(Clone, Copy, Debug, PartialEq, Eq, Structural)]
pub enum Phase {
    Collecting,
    Shuffling,
    AwaitingPeer,
    Returning,
    Draining,
}

/// The only shared mutable state of a server process: the round buffer being
/// collected, the backward batch being received, the published replies, the
/// monotonic round counter, and the round-boundary flag.
pub struct RoundCoordinator {
    pub phase: Phase,
    pub round_num: u32,
    pub buffer: Vec<Message>,
    pub backwards: Vec<Message>,
    pub replies: Vec<Message>,
    pub remote_ended: bool,
}

impl RoundCoordinator {
    pub fn new() -> (r: RoundCoordinator)
        ensures
            r.phase is Collecting,
            r.round_num == 0,
            r.buffer@.len() == 0,
            r.backwards@.len() == 0,
            r.replies@.len() == 0,
            !r.remote_ended,
    {
        RoundCoordinator {
            phase: Phase::Collecting,
            round_num: 0,
            buffer: Vec::new(),
            backwards: Vec::new(),
            replies: Vec::new(),
            remote_ended: false,
        }
    }

    /// One client submission joins the round buffer. The returned index is
    /// the slot where this submission's reply will stand once the round
    /// drains. Nothing is lost or duplicated, and nothing else moves.
    /// Submissions arriving after the buffer was swapped out belong to the
    /// next round and wait in the fresh buffer.
    pub fn submit(&mut self, m: Message) -> (idx: usize)
        ensures
            final(self).buffer@ == old(self).buffer@.push(m),
            idx == old(self).buffer@.len(),
            final(self).phase == old(self).phase,
            final(self).round_num == old(self).round_num,
            final(self).backwards@ == old(self).backwards@,
            final(self).replies@ == old(self).replies@,
            final(self).remote_ended == old(self).remote_ended,
    {
        let idx = self.buffer.len();
        self.buffer.push(m);
        idx
    }

    /// A forwarded batch from the previous hop joins the buffer in order.
    pub fn receive_forward_batch(&mut self, v: Vec<Message>)
        ensures
            final(self).buffer@ == old(self).buffer@ + v@,
            final(self).phase == old(self).phase,
            final(self).round_num == old(self).round_num,
            final(self).backwards@ == old(self).backwards@,
            final(self).replies@ == old(self).replies@,
            final(self).remote_ended == old(self).remote_ended,
    {
        let mut v = v;
        self.buffer.append(&mut v);
    }

    /// The round timer fired: collection closes. The buffer is swapped out
    /// whole — submissions for the next round proceed against a fresh, empty
    /// buffer — and the swapped-out batch goes to the forward transform.
    pub fn begin_shuffle(&mut self) -> (batch: Vec<Message>)
        requires
            old(self).phase is Collecting,
        ensures
            final(self).phase is Shuffling,
            batch@ == old(self).buffer@,
            final(self).buffer@.len() == 0,
            final(self).round_num == old(self).round_num,
            final(self).backwards@ == old(self).backwards@,
            final(self).replies@ == old(self).replies@,
            final(self).remote_ended == old(self).remote_ended,
    {
        let mut batch: Vec<Message> = Vec::new();
        core::mem::swap(&mut self.buffer, &mut batch);
        self.phase = Phase::Shuffling;
        batch
    }

    /// The shuffled batch has been relayed to the next hop; the server now
    /// blocks — holding no lock that would stall new submissions — until
    /// that hop signals the round's end.
    pub fn begin_waiting(&mut self)
        requires
            old(self).phase is Shuffling,
        ensures
            final(self).phase is AwaitingPeer,
            final(self).round_num == old(self).round_num,
            final(self).buffer@ == old(self).buffer@,
            final(self).backwards@ == old(self).backwards@,
            final(self).replies@ == old(self).replies@,
            final(self).remote_ended == old(self).remote_ended,
    {
        self.phase = Phase::AwaitingPeer;
    }

    /// Part of the returned batch arrives from the next hop.
    pub fn receive_backward_batch(&mut self, v: Vec<Message>)
        ensures
            final(self).backwards@ == old(self).backwards@ + v@,
            final(self).phase == old(self).phase,
            final(self).round_num == old(self).round_num,
            final(self).buffer@ == old(self).buffer@,
            final(self).replies@ == old(self).replies@,
            final(self).remote_ended == old(self).remote_ended,
    {
        let mut v = v;
        self.backwards.append(&mut v);
    }

    /// The next hop signals that it has sent everything back.
    pub fn signal_remote_end(&mut self)
        ensures
            final(self).remote_ended,
            final(self).phase == old(self).phase,
            final(self).round_num == old(self).round_num,
            final(self).buffer@ == old(self).buffer@,
            final(self).backwards@ == old(self).backwards@,
            final(self).replies@ == old(self).replies@,
    {
        self.remote_ended = true;
    }

    /// The predicate a waiter re-checks in a loop, filtering spurious
    /// wakeups: has the next hop ended the round?
    pub fn remote_round_ended(&self) -> (r: bool)
        ensures
            r == self.remote_ended,
    {
        self.remote_ended
    }

    /// The wait is over: the returned batch goes whole to the backward
    /// transform, and the round-boundary flag resets for the next round.
    pub fn begin_return(&mut self) -> (batch: Vec<Message>)
        requires
            old(self).phase is AwaitingPeer,
            old(self).remote_ended,
        ensures
            final(self).phase is Returning,
            batch@ == old(self).backwards@,
            final(self).backwards@.len() == 0,
            !final(self).remote_ended,
            final(self).round_num == old(self).round_num,
            final(self).buffer@ == old(self).buffer@,
            final(self).replies@ == old(self).replies@,
    {
        let mut batch: Vec<Message> = Vec::new();
        core::mem::swap(&mut self.backwards, &mut batch);
        self.remote_ended = false;
        self.phase = Phase::Returning;
        batch
    }

    /// The backward transform's output becomes the reply map: reply slot `i`
    /// answers the submission that `submit` placed at index `i`. Blocked
    /// clients may now be released.
    pub fn publish_replies(&mut self, v: Vec<Message>)
        requires
            old(self).phase is Returning,
        ensures
            final(self).phase is Draining,
            final(self).replies@ == old(self).replies@ + v@,
            final(self).round_num == old(self).round_num,
            final(self).buffer@ == old(self).buffer@,
            final(self).backwards@ == old(self).backwards@,
            final(self).remote_ended == old(self).remote_ended,
    {
        let mut v = v;
        self.replies.append(&mut v);
        self.phase = Phase::Draining;
    }

    /// The reply for submission index `idx`: the published reply when one
    /// exists, and otherwise a structurally valid blank carrying the given
    /// tag — a released client always receives a message-shaped value, never
    /// a raw transport or crypto error.
    pub fn reply_or_blank(&self, idx: usize, fallback: &Deaddrop) -> (r: Message)
        requires
            self.phase is Draining,
        ensures
            idx < self.replies@.len() ==> r@ == self.replies@[idx as int]@,
            idx >= self.replies@.len() ==> r@ == message::packed(
                message::zero_content(),
                fallback.location,
            ),
    {
        if idx < self.replies.len() {
            let r = message::copy_range(&self.replies[idx], 0, self.replies[idx].len());
            proof {
                assert(r@ =~= self.replies@[idx as int]@);
            }
            r
        } else {
            message::blank(fallback)
        }
    }

    /// The round is over: the counter increments — round numbers strictly
    /// increase — and every per-round buffer and flag resets, so the next
    /// round starts isolated from this one. Submissions collected for the
    /// next round stay where they are.
    pub fn finish_round(&mut self)
        requires
            old(self).phase is Draining,
            old(self).round_num < u32::MAX,
        ensures
            final(self).phase is Collecting,
            final(self).round_num == old(self).round_num + 1,
            final(self).buffer@ == old(self).buffer@,
            final(self).backwards@.len() == 0,
            final(self).replies@.len() == 0,
            !final(self).remote_ended,
    {
        self.round_num = self.round_num + 1;
        self.backwards.clear();
        self.replies.clear();
        self.remote_ended = false;
        self.phase = Phase::Collecting;
    }
}

} // verus!
