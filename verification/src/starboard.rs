//! The starboard review workflow: a queued candidate is accepted or denied
//! exactly once, and a per-message in-flight gate drops duplicate
//! concurrent triggers instead of processing them twice.

use vstd::prelude::*;

use crate::text::{chars_eq, chars_of};

verus! {

/// Review state of a starboard candidate.  `Queued` is the only state a
/// transition leaves; `Accepted` and `Denied` are terminal.
#[derive(Clone, Copy, Debug, PartialEq, Eq, Structural)]
pub enum StarboardStatus {
    Queued,
    Accepted,
    Denied,
}

/// One message under starboard review.
#[derive(Clone, Debug)]
pub struct StarboardCandidate {
    pub message_id: u64,
    pub status: StarboardStatus,
    pub star_count: u16,
    /// Id of the posted copy, recorded on acceptance.
    pub posted_message_id: Option<u64>,
    /// Channel of the posted copy, recorded on acceptance.
    pub posted_channel_id: Option<u64>,
}

impl StarboardCandidate {
    /// A candidate enters review queued, with no posted copy.
    pub fn new(message_id: u64, star_count: u16) -> (c: StarboardCandidate)
        ensures
            c.message_id == message_id,
            c.star_count == star_count,
            c.status == StarboardStatus::Queued,
            c.posted_message_id is None,
            c.posted_channel_id is None,
    {
        StarboardCandidate {
            message_id,
            status: StarboardStatus::Queued,
            star_count,
            posted_message_id: None,
            posted_channel_id: None,
        }
    }

    /// Accept a queued candidate, recording where its copy was posted.
    /// On a candidate no longer queued nothing changes.
    pub fn accept(&mut self, posted_message_id: u64, posted_channel_id: u64) -> (ok: bool)
        ensures
            ok == (old(self).status == StarboardStatus::Queued),
            ok ==> final(self).status == StarboardStatus::Accepted,
            ok ==> final(self).posted_message_id == Some(posted_message_id),
            ok ==> final(self).posted_channel_id == Some(posted_channel_id),
            !ok ==> *final(self) == *old(self),
            final(self).message_id == old(self).message_id,
            final(self).star_count == old(self).star_count,
    {
        match self.status {
            StarboardStatus::Queued => {
                self.status = StarboardStatus::Accepted;
                self.posted_message_id = Some(posted_message_id);
                self.posted_channel_id = Some(posted_channel_id);
                true
            },
            _ => false,
        }
    }

    /// Deny a queued candidate; only the status changes.  On a candidate no
    /// longer queued nothing changes.
    pub fn deny(&mut self) -> (ok: bool)
        ensures
            ok == (old(self).status == StarboardStatus::Queued),
            ok ==> final(self).status == StarboardStatus::Denied,
            ok ==> final(self).posted_message_id == old(self).posted_message_id,
            ok ==> final(self).posted_channel_id == old(self).posted_channel_id,
            !ok ==> *final(self) == *old(self),
            final(self).message_id == old(self).message_id,
            final(self).star_count == old(self).star_count,
    {
        match self.status {
            StarboardStatus::Queued => {
                self.status = StarboardStatus::Denied;
                true
            },
            _ => false,
        }
    }
}

/// What `try_begin` does to a gate state: report whether the id was already
/// in flight, and mark it in flight.
pub open spec fn gate_try_begin(s: Set<u64>, id: u64) -> (bool, Set<u64>) {
    (s.contains(id), s.insert(id))
}

/// What `end` does to a gate state: clear the mark unconditionally.
pub open spec fn gate_end(s: Set<u64>, id: u64) -> Set<u64> {
    s.remove(id)
}

/// The set of message ids whose review is currently being handled.
///
/// `try_begin` is a non-blocking test-and-set: of two triggers for the same
/// id, the second sees the mark of the first and is dropped.
pub struct StarboardGate {
    in_flight: Vec<u64>,
}

impl View for StarboardGate {
    type V = Set<u64>;

    closed spec fn view(&self) -> Set<u64> {
        self.in_flight@.to_set()
    }
}

impl StarboardGate {
    /// Well-formedness of the backing vector; constructors establish it and
    /// methods preserve it.
    pub closed spec fn wf(self) -> bool {
        self.in_flight@.no_duplicates()
    }

    pub fn new() -> (g: StarboardGate)
        ensures
            g.wf(),
            g@ == Set::<u64>::empty(),
    {
        let g = StarboardGate { in_flight: Vec::new() };
        proof {
            assert(g.in_flight@.to_set() =~= Set::<u64>::empty());
        }
        g
    }

    /// Report whether `message_id` is already being handled and mark it as
    /// being handled.  A `true` result tells the caller to drop the
    /// trigger.
    pub fn try_begin(&mut self, message_id: u64) -> (already: bool)
        requires
            old(self).wf(),
        ensures
            final(self).wf(),
            (already, final(self)@) == gate_try_begin(old(self)@, message_id),
    {
        let already = self.contains(message_id);
        if !already {
            let ghost before = self.in_flight@;
            proof {
                assert(!before.contains(message_id));
            }
            self.in_flight.push(message_id);
            proof {
                before.lemma_push_to_set_commute(message_id);
                assert(self.in_flight@.to_set() =~= before.to_set().insert(message_id));
                assert forall|i: int, j: int|
                    0 <= i < self.in_flight@.len() && 0 <= j < self.in_flight@.len() && i
                        != j implies self.in_flight@[i] != self.in_flight@[j] by {
                    if i < before.len() && j == before.len() {
                        if before[i] == message_id {
                            assert(before.contains(message_id));
                        }
                    } else if j < before.len() && i == before.len() {
                        if before[j] == message_id {
                            assert(before.contains(message_id));
                        }
                    }
                };
            }
        } else {
            proof {
                assert(self.in_flight@.contains(message_id));
                assert(self.in_flight@.to_set() =~= self.in_flight@.to_set().insert(message_id));
            }
        }
        already
    }

    /// Clear the in-flight mark unconditionally.
    pub fn end(&mut self, message_id: u64)
        requires
            old(self).wf(),
        ensures
            final(self).wf(),
            final(self)@ == gate_end(old(self)@, message_id),
    {
        let ghost before = self.in_flight@;
        let mut kept: Vec<u64> = Vec::new();
        let mut i: usize = 0;
        while i < self.in_flight.len()
            invariant
                0 <= i <= self.in_flight@.len(),
                self.in_flight@ == before,
                before.no_duplicates(),
                kept@.no_duplicates(),
                kept@.to_set() =~= before.subrange(0, i as int).to_set().remove(message_id),
            decreases self.in_flight@.len() - i,
        {
            let ghost pre = before.subrange(0, i as int);
            let ghost kpre = kept@;
            proof {
                pre.lemma_push_to_set_commute(before[i as int]);
                assert(pre.push(before[i as int]) =~= before.subrange(0, i + 1));
            }
            if self.in_flight[i] != message_id {
                proof {
                    if pre.contains(before[i as int]) {
                        let t = choose|t: int| 0 <= t < i && #[trigger] pre[t] == before[i as int];
                        assert(before[t] == before[i as int]);
                        assert(false);
                    }
                    if kept@.contains(before[i as int]) {
                        assert(kept@.to_set().contains(before[i as int]));
                        assert(pre.contains(before[i as int]));
                        assert(false);
                    }
                }
                let x = self.in_flight[i];
                kept.push(x);
                proof {
                    kpre.lemma_push_to_set_commute(before[i as int]);
                    assert(kept@.to_set() =~= before.subrange(0, i + 1).to_set().remove(
                        message_id,
                    ));
                }
            } else {
                proof {
                    assert(kept@.to_set() =~= before.subrange(0, i + 1).to_set().remove(
                        message_id,
                    ));
                }
            }
            i = i + 1;
        }
        proof {
            assert(before.subrange(0, before.len() as int) =~= before);
        }
        self.in_flight = kept;
    }

    /// Whether `message_id` is currently marked in flight.
    pub fn contains(&self, message_id: u64) -> (res: bool)
        ensures
            res == self@.contains(message_id),
    {
        let mut i: usize = 0;
        while i < self.in_flight.len()
            invariant
                0 <= i <= self.in_flight@.len(),
                forall|t: int| 0 <= t < i ==> self.in_flight@[t] != message_id,
            decreases self.in_flight@.len() - i,
        {
            if self.in_flight[i] == message_id {
                return true;
            }
            i = i + 1;
        }
        proof {
            assert(!self.in_flight@.contains(message_id));
        }
        false
    }
}

/// Two attempts to handle one message id, one after the other: the first
/// goes ahead, the second is dropped; once the first has cleared the mark,
/// a later attempt goes ahead again.
pub proof fn lemma_gate_exclusion(s: Set<u64>, id: u64)
    requires
        !s.contains(id),
    ensures
        ({
            let (first_already, s1) = gate_try_begin(s, id);
            let (second_already, s2) = gate_try_begin(s1, id);
            let s3 = gate_end(s2, id);
            let (third_already, _) = gate_try_begin(s3, id);
            !first_already && second_already && !third_already
        }),
{
}

/// The two review outcomes a component press can ask for.
#[derive(Clone, Copy, Debug, PartialEq, Eq, Structural)]
pub enum ReviewAction {
    Accept,
    Deny,
}

/// How an incoming review press is treated.
#[derive(Clone, Copy, Debug, PartialEq, Eq, Structural)]
pub enum ComponentDecision {
    /// Not a starboard interaction, or the starboard is inactive, or the
    /// interaction came from the wrong channel: do nothing.
    Ignore,
    /// An interaction from a user without the configured role: answer with
    /// an ephemeral rejection and change nothing.
    RejectUnauthorized,
    /// Carry out the action, guarded by the in-flight mark.
    Proceed(ReviewAction),
}

/// The component id that accepts a candidate.
pub open spec fn accept_id() -> Seq<char> {
    "starboard_accept"@
}

/// The component id that denies a candidate.
pub open spec fn deny_id() -> Seq<char> {
    "starboard_deny"@
}

/// Decide how to treat a component interaction: only an accept or deny
/// press in the queue channel is considered, and only a holder of the
/// configured role may go on.
pub fn component_decision(
    active: bool,
    custom_id: &str,
    channel_id: u64,
    queue_channel_id: u64,
    has_allowed_role: bool,
) -> (d: ComponentDecision)
    ensures
        ({
            let is_accept = custom_id@ == accept_id();
            let is_deny = custom_id@ == deny_id();
            d == if !active || (!is_accept && !is_deny) || channel_id != queue_channel_id {
                ComponentDecision::Ignore
            } else if !has_allowed_role {
                ComponentDecision::RejectUnauthorized
            } else if is_accept {
                ComponentDecision::Proceed(ReviewAction::Accept)
            } else {
                ComponentDecision::Proceed(ReviewAction::Deny)
            }
        }),
{
    if !active {
        return ComponentDecision::Ignore;
    }
    let id_chars = chars_of(custom_id);
    let accept_chars = chars_of("starboard_accept");
    let deny_chars = chars_of("starboard_deny");
    let is_accept = chars_eq(id_chars.as_slice(), accept_chars.as_slice());
    let is_deny = chars_eq(id_chars.as_slice(), deny_chars.as_slice());
    if !is_accept && !is_deny {
        return ComponentDecision::Ignore;
    }
    if channel_id != queue_channel_id {
        return ComponentDecision::Ignore;
    }
    if !has_allowed_role {
        return ComponentDecision::RejectUnauthorized;
    }
    if is_accept {
        ComponentDecision::Proceed(ReviewAction::Accept)
    } else {
        ComponentDecision::Proceed(ReviewAction::Deny)
    }
}

/// The users allowed to run the starboard maintenance commands.
pub fn allowed_user(user_id: u64) -> (res: bool)
    ensures
        res == (user_id == 101090238067113984 || user_id == 291089948709486593 || user_id
            == 158567567487795200),
{
    user_id == 101090238067113984 || user_id == 291089948709486593 || user_id
        == 158567567487795200
}

} // verus!
