//! Batching of PTY output: the decisions of the loop that merges raw reads
//! into one message per burst. The loop itself (blocking receives, the
//! grace wait) belongs to the PTY plumbing; it asks [`next_action`] what to
//! do after each attempt to take more data.
use vstd::prelude::*;

verus! {

/// Largest batch assembled before it is forwarded (64 KiB), so a long burst
/// still yields steady redraws.
pub const COALESCE_MAX: usize = 65536;

/// Batches at or above this size look like bulk output in flight and are
/// worth a short wait for the next read.
pub const BURST_THRESHOLD: usize = 2048;

/// What an attempt to take more data from the reader found.
#[derive(Debug, Clone, Copy, PartialEq, Eq, Structural)]
pub enum QueueState {
    /// Another chunk was waiting.
    Chunk,
    /// Nothing is queued right now.
    Empty,
    /// The reader is gone.
    Disconnected,
}

#[derive(Debug, Clone, Copy, PartialEq, Eq, Structural)]
pub enum CoalesceAction {
    /// Append the chunk and keep collecting.
    Append,
    /// Wait briefly for another chunk, then forward the batch if none came.
    WaitGrace,
    /// Forward the batch now.
    Flush,
}

pub open spec fn spec_next_action(batch_len: usize, q: QueueState) -> CoalesceAction {
    if batch_len >= COALESCE_MAX {
        CoalesceAction::Flush
    } else {
        match q {
            QueueState::Chunk => CoalesceAction::Append,
            QueueState::Empty => if batch_len >= BURST_THRESHOLD {
                CoalesceAction::WaitGrace
            } else {
                CoalesceAction::Flush
            },
            QueueState::Disconnected => CoalesceAction::Flush,
        }
    }
}

/// The next step for a batch of `batch_len` bytes: a full batch is
/// forwarded; otherwise a waiting chunk is appended, an empty queue forwards
/// a small batch at once (no added latency for interactive echo) and waits
/// briefly on a large one, and a closed reader forwards what there is.
pub fn next_action(batch_len: usize, q: QueueState) -> (r: CoalesceAction)
    ensures
        r == spec_next_action(batch_len, q),
{
    if batch_len >= COALESCE_MAX {
        return CoalesceAction::Flush;
    }
    match q {
        QueueState::Chunk => CoalesceAction::Append,
        QueueState::Empty => if batch_len >= BURST_THRESHOLD {
            CoalesceAction::WaitGrace
        } else {
            CoalesceAction::Flush
        },
        QueueState::Disconnected => CoalesceAction::Flush,
    }
}

/// A small batch is never held back: with nothing queued it goes out at
/// once, so a keystroke's echo gets no added latency; and no batch keeps
/// collecting once it has reached the cap.
pub proof fn law_small_batches_are_not_delayed(batch_len: usize, q: QueueState)
    ensures
        batch_len < BURST_THRESHOLD && q != QueueState::Chunk ==> spec_next_action(batch_len, q)
            == CoalesceAction::Flush,
        batch_len >= COALESCE_MAX ==> spec_next_action(batch_len, q) == CoalesceAction::Flush,
        spec_next_action(batch_len, q) == CoalesceAction::WaitGrace ==> q == QueueState::Empty,
{
}

} // verus!
