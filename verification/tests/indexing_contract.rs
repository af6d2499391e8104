use tfm2_atlas::index::{CachedMatchId, MatchKind};
use tfm2_atlas::indexing::{
    batch_follow_up, queue_unindexed, summarize_events, BatchFollowUp, EventSummary,
    ManagementEvent,
};
use tfm2_atlas::match_index::MatchIndex;

fn key(kind: MatchKind, id: usize) -> CachedMatchId {
    CachedMatchId { kind, id }
}

#[test]
fn only_replays_that_are_neither_indexed_nor_waiting_are_queued() {
    let mut index: MatchIndex<()> = MatchIndex::new();
    index.record(key(MatchKind::Tournament, 2), ());
    let mut pending = vec![key(MatchKind::Tournament, 5)];
    queue_unindexed(&mut pending, &index, MatchKind::Tournament, &[1, 2, 5, 1, 7]);
    queue_unindexed(&mut pending, &index, MatchKind::Solo, &[2, 5]);
    assert_eq!(
        pending,
        vec![
            key(MatchKind::Tournament, 5),
            key(MatchKind::Tournament, 1),
            key(MatchKind::Tournament, 7),
            key(MatchKind::Solo, 2),
            key(MatchKind::Solo, 5),
        ]
    );
}

#[test]
fn events_raise_the_sequence_and_ask_for_refreshes() {
    let summary = summarize_events(
        10,
        &[
            (12, Some(ManagementEvent::Other)),
            (11, Some(ManagementEvent::MatchFinished)),
            (9, None),
        ],
    );
    assert_eq!(
        summary,
        EventSummary {
            last_seq: 12,
            refresh: true,
            season_rollover: false,
        }
    );
    let summary = summarize_events(3, &[(4, Some(ManagementEvent::SeasonRollover))]);
    assert!(summary.refresh && summary.season_rollover);
    assert_eq!(
        summarize_events(8, &[]),
        EventSummary {
            last_seq: 8,
            refresh: false,
            season_rollover: false,
        }
    );
}

#[test]
fn batches_complete_checkpoint_or_refresh() {
    assert_eq!(batch_follow_up(300, 0, true), BatchFollowUp::Complete);
    assert_eq!(
        batch_follow_up(256, 4, false),
        BatchFollowUp::Checkpoint { refresh: false }
    );
    assert_eq!(batch_follow_up(255, 4, true), BatchFollowUp::Refresh);
    assert_eq!(batch_follow_up(10, 4, false), BatchFollowUp::Wait);
}
