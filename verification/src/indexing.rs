//! The bookkeeping of background indexing: which replays wait to be indexed, what the game's
//! management events ask for, and what follows a batch of indexed replays.
use vstd::prelude::*;

use crate::index::{CachedMatchId, MatchKind, MATCH_INDEX_CACHE_CHUNK_SIZE};
use crate::match_index::MatchIndex;

verus! {

/// The management events that matter to the index; every other kind is `Other`.
#[derive(Debug, Clone, Copy, PartialEq, Eq, Structural)]
pub enum ManagementEvent {
    MatchFinished,
    SeasonRollover,
    Other,
}

/// What a run of management events asks for.
#[derive(Debug, Clone, Copy, PartialEq, Eq, Structural)]
pub struct EventSummary {
    /// The highest event sequence number seen.
    pub last_seq: u64,
    /// A match finished or a season rolled over: new replays may wait.
    pub refresh: bool,
    /// A season rolled over: the champion catalog must be read again.
    pub season_rollover: bool,
}

/// The summary of the events after `last_seq`, in order.
pub open spec fn events_summary(last_seq: u64, events: Seq<(u64, Option<ManagementEvent>)>) -> EventSummary
    decreases events.len(),
{
    if events.len() == 0 {
        EventSummary { last_seq, refresh: false, season_rollover: false }
    } else {
        let before = events_summary(last_seq, events.drop_last());
        let (seq, kind) = events.last();
        EventSummary {
            last_seq: if seq > before.last_seq {
                seq
            } else {
                before.last_seq
            },
            refresh: before.refresh || kind == Some(ManagementEvent::MatchFinished) || kind == Some(
                ManagementEvent::SeasonRollover,
            ),
            season_rollover: before.season_rollover || kind == Some(ManagementEvent::SeasonRollover),
        }
    }
}

/// Folds the management events into what they ask for.
pub fn summarize_events(last_seq: u64, events: &[(u64, Option<ManagementEvent>)]) -> (summary: EventSummary)
    ensures
        summary == events_summary(last_seq, events@),
{
    let mut summary = EventSummary { last_seq, refresh: false, season_rollover: false };
    let mut i: usize = 0;
    while i < events.len()
        invariant
            i <= events@.len(),
            summary == events_summary(last_seq, events@.subrange(0, i as int)),
        decreases events.len() - i,
    {
        assert(events@.subrange(0, i + 1).drop_last() =~= events@.subrange(0, i as int));
        let (seq, kind) = events[i];
        if seq > summary.last_seq {
            summary.last_seq = seq;
        }
        if kind == Some(ManagementEvent::MatchFinished) || kind == Some(ManagementEvent::SeasonRollover) {
            summary.refresh = true;
        }
        if kind == Some(ManagementEvent::SeasonRollover) {
            summary.season_rollover = true;
        }
        i = i + 1;
    }
    assert(events@.subrange(0, events@.len() as int) =~= events@);
    summary
}

/// The queue after the replays `ids` of a kind are offered to it: each joins at the end unless
/// the index holds it or it already waits.
pub open spec fn queued(
    pending: Seq<CachedMatchId>,
    indexed: Set<CachedMatchId>,
    kind: MatchKind,
    ids: Seq<usize>,
) -> Seq<CachedMatchId>
    decreases ids.len(),
{
    if ids.len() == 0 {
        pending
    } else {
        let before = queued(pending, indexed, kind, ids.drop_last());
        let key = CachedMatchId { kind, id: ids.last() };
        if indexed.contains(key) || before.contains(key) {
            before
        } else {
            before.push(key)
        }
    }
}

fn waits(pending: &Vec<CachedMatchId>, key: CachedMatchId) -> (found: bool)
    ensures
        found == pending@.contains(key),
{
    let mut i: usize = 0;
    while i < pending.len()
        invariant
            i <= pending@.len(),
            forall|k: int| 0 <= k < i ==> pending@[k] != key,
        decreases pending.len() - i,
    {
        let entry = pending[i];
        if entry.kind == key.kind && entry.id == key.id {
            assert(pending@[i as int] == key);
            return true;
        }
        i = i + 1;
    }
    false
}

/// Queues the replays of a kind that are neither indexed nor waiting yet, in the order given.
pub fn queue_unindexed<F>(
    pending: &mut Vec<CachedMatchId>,
    index: &MatchIndex<F>,
    kind: MatchKind,
    ids: &[usize],
)
    ensures
        final(pending)@ == queued(old(pending)@, index.facts().dom(), kind, ids@),
{
    let ghost start = pending@;
    let mut i: usize = 0;
    while i < ids.len()
        invariant
            i <= ids@.len(),
            pending@ == queued(start, index.facts().dom(), kind, ids@.subrange(0, i as int)),
        decreases ids.len() - i,
    {
        assert(ids@.subrange(0, i + 1).drop_last() =~= ids@.subrange(0, i as int));
        let key = CachedMatchId { kind, id: ids[i] };
        if !index.contains(kind, ids[i]) && !waits(pending, key) {
            pending.push(key);
        }
        i = i + 1;
    }
    assert(ids@.subrange(0, ids@.len() as int) =~= ids@);
}

/// What follows a batch of indexing.
#[derive(Debug, Clone, Copy, PartialEq, Eq, Structural)]
pub enum BatchFollowUp {
    /// Nothing waits any more: the cache is written as complete and the engine is ready.
    Complete,
    /// A checkpoint of the cache is written; new facts, if any, refresh the analytics.
    Checkpoint { refresh: bool },
    /// The analytics are refreshed with the new facts.
    Refresh,
    /// Nothing to do until the next batch.
    Wait,
}

/// The follow-up of a batch: a checkpoint once a chunk's worth of replays was processed while
/// more wait, completion once none waits, otherwise a refresh when facts were added.
pub open spec fn follow_up(processed_since_checkpoint: usize, pending: usize, changed: bool) -> BatchFollowUp {
    if pending == 0 {
        BatchFollowUp::Complete
    } else if processed_since_checkpoint >= MATCH_INDEX_CACHE_CHUNK_SIZE {
        BatchFollowUp::Checkpoint { refresh: changed }
    } else if changed {
        BatchFollowUp::Refresh
    } else {
        BatchFollowUp::Wait
    }
}

pub fn batch_follow_up(processed_since_checkpoint: usize, pending: usize, changed: bool) -> (next: BatchFollowUp)
    ensures
        next == follow_up(processed_since_checkpoint, pending, changed),
{
    if pending == 0 {
        BatchFollowUp::Complete
    } else if processed_since_checkpoint >= MATCH_INDEX_CACHE_CHUNK_SIZE {
        BatchFollowUp::Checkpoint { refresh: changed }
    } else if changed {
        BatchFollowUp::Refresh
    } else {
        BatchFollowUp::Wait
    }
}

/// Offering replays keeps the queue clean: a replay waits at most once and never once it is
/// indexed, and whatever waited still waits.
pub proof fn lemma_queue_stays_clean(
    pending: Seq<CachedMatchId>,
    indexed: Set<CachedMatchId>,
    kind: MatchKind,
    ids: Seq<usize>,
)
    requires
        pending.no_duplicates(),
        forall|k: int| 0 <= k < pending.len() ==> !indexed.contains(#[trigger] pending[k]),
    ensures
        queued(pending, indexed, kind, ids).no_duplicates(),
        forall|k: int|
            0 <= k < queued(pending, indexed, kind, ids).len() ==> !indexed.contains(
                #[trigger] queued(pending, indexed, kind, ids)[k],
            ),
        queued(pending, indexed, kind, ids).len() >= pending.len(),
        queued(pending, indexed, kind, ids).subrange(0, pending.len() as int) == pending,
    decreases ids.len(),
{
    if ids.len() > 0 {
        lemma_queue_stays_clean(pending, indexed, kind, ids.drop_last());
        let before = queued(pending, indexed, kind, ids.drop_last());
        let key = CachedMatchId { kind, id: ids.last() };
        if !(indexed.contains(key) || before.contains(key)) {
            let after = before.push(key);
            assert(after.subrange(0, pending.len() as int) =~= before.subrange(0, pending.len() as int));
            assert forall|a: int, b: int| 0 <= a < b < after.len() implies after[a] != after[b] by {
                if b == before.len() {
                    assert(before.contains(after[a]) || a == b);
                }
            }
        }
    } else {
        assert(pending.subrange(0, pending.len() as int) =~= pending);
    }
}

} // verus!
