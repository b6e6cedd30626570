use vstd::prelude::*;

verus! {

/// After this many consecutive failures on the same update it is skipped, so
/// one poisonous message cannot wedge the bot forever.
pub const MAX_ATTEMPTS: u32 = 3;

/// Where the poll loop stands: the offset to ask Telegram for next, and how
/// many times in a row the update at that offset has failed.
#[derive(Debug, Clone, Copy, PartialEq, Eq, Structural)]
pub struct PollState {
    pub offset: Option<i64>,
    pub attempts: u32,
}

/// What the loop does after an update.
#[derive(Debug, Clone, Copy, PartialEq, Eq, Structural)]
pub enum NextStep {
    /// Go on with the next update of the batch.
    Continue,
    /// Wait, then poll again from the unchanged offset: the update is replayed.
    WaitAndReplay,
    /// Give up on the update and poll again from past it.
    Skip,
}

impl PollState {
    /// A state the loop can be in: the failure count is below the limit.
    pub open spec fn is_valid(self) -> bool {
        self.attempts < MAX_ATTEMPTS
    }
}

/// The state before the first poll: no offset, no failures.
pub fn initial_state() -> (s: PollState)
    ensures
        s == (PollState { offset: None, attempts: 0 }),
        s.is_valid(),
{
    PollState { offset: None, attempts: 0 }
}

/// The offset that confirms update `update_id`: the one after it.
pub open spec fn past_update(update_id: u32) -> Option<i64> {
    Some((update_id + 1) as i64)
}

/// The step after update `update_id` was handled (`handled`) or failed.
/// Confirming an update to Telegram means never seeing it again, so the
/// offset only moves past an update once it is handled, or once it has failed
/// `MAX_ATTEMPTS` times in a row.
pub open spec fn poll_step(s: PollState, update_id: u32, handled: bool) -> (PollState, NextStep) {
    let past = past_update(update_id);
    if handled {
        (PollState { offset: past, attempts: 0 }, NextStep::Continue)
    } else if s.attempts + 1 >= MAX_ATTEMPTS {
        (PollState { offset: past, attempts: 0 }, NextStep::Skip)
    } else {
        (PollState { offset: s.offset, attempts: (s.attempts + 1) as u32 }, NextStep::WaitAndReplay)
    }
}

/// The loop's decision after one update.
pub fn after_update(state: PollState, update_id: u32, handled: bool) -> (r: (PollState, NextStep))
    requires
        state.is_valid(),
    ensures
        r == poll_step(state, update_id, handled),
        r.0.is_valid(),
{
    let past = Some(update_id as i64 + 1);
    if handled {
        (PollState { offset: past, attempts: 0 }, NextStep::Continue)
    } else if state.attempts + 1 >= MAX_ATTEMPTS {
        (PollState { offset: past, attempts: 0 }, NextStep::Skip)
    } else {
        (PollState { offset: state.offset, attempts: state.attempts + 1 }, NextStep::WaitAndReplay)
    }
}

/// The state after the same update fails `n` times in a row.
pub open spec fn after_failures(s: PollState, update_id: u32, n: nat) -> PollState
    decreases n,
{
    if n == 0 {
        s
    } else {
        poll_step(after_failures(s, update_id, (n - 1) as nat), update_id, false).0
    }
}

/// An update that keeps failing is replayed from the same offset until it has
/// failed `MAX_ATTEMPTS` times in a row, and then skipped: the offset moves
/// past it and the failure count starts over.
pub proof fn law_failing_update_is_skipped_after_max_attempts(offset: Option<i64>, update_id: u32)
    ensures
        ({
            let s = PollState { offset, attempts: 0 };
            &&& forall|n: nat| 0 < n < MAX_ATTEMPTS ==> (#[trigger] after_failures(s, update_id, n)).offset == offset
            &&& after_failures(s, update_id, (MAX_ATTEMPTS - 1) as nat).attempts == MAX_ATTEMPTS - 1
            &&& poll_step(after_failures(s, update_id, (MAX_ATTEMPTS - 1) as nat), update_id, false).1 == NextStep::Skip
            &&& after_failures(s, update_id, MAX_ATTEMPTS as nat) == (PollState {
                offset: past_update(update_id),
                attempts: 0,
            })
        }),
{
    let s = PollState { offset, attempts: 0 };
    assert(after_failures(s, update_id, 0) == s);
    assert(after_failures(s, update_id, 1) == PollState { offset, attempts: 1 });
    assert(after_failures(s, update_id, 2) == PollState { offset, attempts: 2 });
    assert(after_failures(s, update_id, 3) == PollState { offset: past_update(update_id), attempts: 0 });
}

/// What an incoming update is, as far as answering it goes.
#[derive(Debug, Clone, Copy, PartialEq, Eq, Structural)]
pub enum Incoming {
    /// Not a message, or a message without a sender: nothing to do.
    Ignore,
    /// A message from someone other than the allowed user: dropped unanswered.
    Stranger,
    /// A message from the allowed user without text: answered with a hint.
    NotText,
    /// A text message from the allowed user: answered.
    Text,
}

/// How an update is treated. Only the allowed user's messages are answered,
/// since anyone can find a public bot and write to it.
pub open spec fn incoming_kind(is_message: bool, sender: Option<u64>, has_text: bool, allowed_user_id: i64) -> Incoming {
    if !is_message {
        Incoming::Ignore
    } else {
        match sender {
            None => Incoming::Ignore,
            Some(id) => if id as int != allowed_user_id as int {
                Incoming::Stranger
            } else if !has_text {
                Incoming::NotText
            } else {
                Incoming::Text
            },
        }
    }
}

/// Sorts an update by whether it is a message, who sent it, and whether it
/// has text.
pub fn classify(is_message: bool, sender: Option<u64>, has_text: bool, allowed_user_id: i64) -> (r: Incoming)
    ensures
        r == incoming_kind(is_message, sender, has_text, allowed_user_id),
{
    if !is_message {
        return Incoming::Ignore;
    }
    match sender {
        None => Incoming::Ignore,
        Some(id) => {
            let same = allowed_user_id >= 0 && id == allowed_user_id as u64;
            if !same {
                Incoming::Stranger
            } else if !has_text {
                Incoming::NotText
            } else {
                Incoming::Text
            }
        },
    }
}

/// The answer to a message without text.
pub fn not_text_reply() -> (s: &'static str)
    ensures
        s@ == "Solo entiendo mensajes de texto."@,
{
    "Solo entiendo mensajes de texto."
}

} // verus!
