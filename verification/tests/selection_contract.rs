use tfm2_atlas::index::{CachedMatchId, Division, MatchKind, ReplayError};
use tfm2_atlas::match_index::MatchIndex;
use tfm2_atlas::profile::{DivisionFilter, GameScope, RegionFilter, TierProfile};
use tfm2_atlas::selection::{
    available_patches, candidate_positions, latest_patch, patch_window, selected_matches,
    team_side, MatchScope,
};

fn key(kind: MatchKind, id: usize) -> CachedMatchId {
    CachedMatchId { kind, id }
}

fn scope(kind: MatchKind, region: RegionFilter, division: Option<Division>, patch: &str) -> MatchScope {
    MatchScope {
        kind,
        region,
        division,
        patch: patch.to_owned(),
    }
}

fn profile_with(patch: Option<&str>) -> TierProfile {
    let mut profile = TierProfile::default();
    profile.patch = patch.map(ToOwned::to_owned);
    profile
}

#[test]
fn index_keeps_tournaments_before_solo_and_ids_in_order() {
    let mut index: MatchIndex<&str> = MatchIndex::new();
    index.record(key(MatchKind::Solo, 3), "solo 3");
    index.record(key(MatchKind::Tournament, 9), "tournament 9");
    index.record(key(MatchKind::Solo, 1), "solo 1");
    index.record(key(MatchKind::Tournament, 2), "tournament 2");

    assert_eq!(
        index.match_ids(),
        vec![
            key(MatchKind::Tournament, 2),
            key(MatchKind::Tournament, 9),
            key(MatchKind::Solo, 1),
            key(MatchKind::Solo, 3),
        ]
    );
    assert_eq!(index.match_count(), 4);
    assert_eq!(index.revision(), 4);
    assert!(index.contains(MatchKind::Solo, 1));
    assert!(!index.contains(MatchKind::Tournament, 1));
}

#[test]
fn recording_the_same_replay_again_replaces_it_and_moves_the_revision() {
    let mut index: MatchIndex<u32> = MatchIndex::new();
    index.record(key(MatchKind::Tournament, 5), 1);
    index.record(key(MatchKind::Tournament, 5), 2);
    assert_eq!(index.match_count(), 1);
    assert_eq!(index.entries()[0].1, 2);
    assert_eq!(index.revision(), 2);
}

#[test]
fn clearing_forgets_every_replay_and_moves_the_revision() {
    let mut index: MatchIndex<u32> = MatchIndex::starting_at(u64::MAX);
    index.record(key(MatchKind::Solo, 5), 1);
    assert_eq!(index.revision(), 0);
    index.clear();
    assert_eq!(index.match_count(), 0);
    assert_eq!(index.revision(), 1);
    assert!(!index.contains(MatchKind::Solo, 5));
}

#[test]
fn restoring_a_duplicate_id_is_refused_and_changes_nothing() {
    let mut index: MatchIndex<u32> = MatchIndex::starting_at(17);
    assert!(index.insert_restored(key(MatchKind::Solo, 5), 1).is_ok());
    assert!(index.insert_restored(key(MatchKind::Tournament, 5), 2).is_ok());
    assert_eq!(
        index.insert_restored(key(MatchKind::Solo, 5), 3),
        Err(ReplayError::Cache("cache contains duplicate match ids".to_owned()))
    );
    assert_eq!(index.match_count(), 2);
    assert_eq!(index.revision(), 17);
    assert_eq!(index.entries()[1], (key(MatchKind::Solo, 5), 1));
}

#[test]
fn patches_are_offered_newest_version_first_each_once() {
    let matches = vec![
        scope(MatchKind::Solo, RegionFilter::Kr, None, "0.5.9"),
        scope(MatchKind::Solo, RegionFilter::Kr, None, "0.5.10"),
        scope(MatchKind::Tournament, RegionFilter::Eu, Some(Division::First), "0.5.9"),
        scope(MatchKind::Solo, RegionFilter::Na, None, "0.4.12"),
    ];
    let patches = available_patches(&profile_with(None), &matches);
    assert_eq!(patches, vec!["0.5.10", "0.5.9", "0.4.12"]);

    let mut korea = profile_with(None);
    korea.region = RegionFilter::Kr;
    assert_eq!(available_patches(&korea, &matches), vec!["0.5.10", "0.5.9"]);
}

#[test]
fn patches_with_the_same_version_numbers_are_ordered_by_name() {
    let matches = vec![
        scope(MatchKind::Solo, RegionFilter::Kr, None, "v1.2"),
        scope(MatchKind::Solo, RegionFilter::Kr, None, "1.2"),
    ];
    assert_eq!(available_patches(&profile_with(None), &matches), vec!["1.2", "v1.2"]);
}

#[test]
fn latest_patch_is_the_newest_among_the_candidates() {
    let matches = vec![
        scope(MatchKind::Tournament, RegionFilter::Eu, Some(Division::Second), "0.6.1"),
        scope(MatchKind::Tournament, RegionFilter::Eu, Some(Division::First), "0.5.2"),
        scope(MatchKind::Solo, RegionFilter::Kr, None, "0.5.10"),
    ];
    let profile = profile_with(None);
    assert_eq!(latest_patch(&profile, &matches), Some("0.6.1".to_owned()));

    let mut first = profile_with(None);
    first.division = DivisionFilter::First;
    assert_eq!(latest_patch(&first, &matches), Some("0.5.2".to_owned()));

    let mut solo = profile_with(None);
    solo.scope = GameScope::Solo;
    solo.region = RegionFilter::Cn;
    assert_eq!(latest_patch(&solo, &matches), None);
}

#[test]
fn selection_follows_the_patch_filter() {
    let matches = vec![
        scope(MatchKind::Solo, RegionFilter::Kr, None, "0.5.9"),
        scope(MatchKind::Solo, RegionFilter::Kr, None, "0.5.10"),
        scope(MatchKind::Solo, RegionFilter::Cn, None, "0.5.10"),
        scope(MatchKind::Tournament, RegionFilter::Kr, Some(Division::First), "0.5.9"),
    ];
    assert_eq!(selected_matches(&profile_with(None), &matches), vec![0, 1, 2, 3]);
    assert_eq!(selected_matches(&profile_with(Some("latest")), &matches), vec![1, 2]);
    assert_eq!(selected_matches(&profile_with(Some("0.5.9")), &matches), vec![0, 3]);
    assert_eq!(selected_matches(&profile_with(Some("0.1")), &matches), Vec::<usize>::new());

    let mut first_division = profile_with(None);
    first_division.division = DivisionFilter::First;
    assert_eq!(candidate_positions(&first_division, &matches), vec![3]);
    assert_eq!(selected_matches(&first_division, &matches), vec![3]);
}

#[test]
fn patch_window_starts_at_the_filtered_patch() {
    let order = vec!["0.6".to_owned(), "0.5".to_owned(), "0.4".to_owned()];
    assert_eq!(patch_window(&order, &None, &Some("0.6".to_owned())), order);
    assert_eq!(
        patch_window(&order, &Some("latest".to_owned()), &Some("0.5".to_owned())),
        vec!["0.5", "0.4"]
    );
    assert_eq!(patch_window(&order, &Some("0.4".to_owned()), &None), vec!["0.4"]);
    assert!(patch_window(&order, &Some("0.3".to_owned()), &None).is_empty());
    assert!(patch_window(&order, &Some("latest".to_owned()), &None).is_empty());
}

#[test]
fn team_side_prefers_blue_and_knows_absent_teams() {
    assert_eq!(team_side(Some(4), Some(4), 4), Some(true));
    assert_eq!(team_side(Some(1), Some(4), 4), Some(false));
    assert_eq!(team_side(None, Some(2), 4), None);
}
