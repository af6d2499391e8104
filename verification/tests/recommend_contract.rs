use tfm2_atlas::api::DraftSide;
use tfm2_atlas::catalog::ActiveChampionCatalogEntry;
use tfm2_atlas::draft::{DraftPhase, DraftRoleConfidence};
use tfm2_atlas::mock_draft::MockDraftState;
use tfm2_atlas::profile::RoleFilter;
use tfm2_atlas::recommend::{
    fill_lineup, game_roles, order_team_options, recommendation_notes, recommendation_pool,
    role_sets, tier_row_sources, TeamEntry, TierRowSource,
};
use tfm2_atlas::runtime::{catalog_for_active_ids, ChampionBriefState, ChampionStatState};

fn zero_stat() -> ChampionStatState {
    ChampionStatState {
        attack: 0,
        magic_power: 0,
        hp: 0,
        defence: 0,
        magic_resistance: 0,
        move_speed: 0,
        hp_regen: 0,
        stack: 0,
        crit_chance: 0,
    }
}

fn brief(id: &str, name: &str, positions: Vec<RoleFilter>) -> ChampionBriefState {
    ChampionBriefState {
        champion_id: id.to_owned(),
        display_name: name.to_owned(),
        category: None,
        tags: Vec::new(),
        main_position: positions.first().copied(),
        positions,
        stat: zero_stat(),
        growth: zero_stat(),
    }
}

fn strings(items: &[&str]) -> Vec<String> {
    items.iter().map(|item| (*item).to_owned()).collect()
}

const ALL_ROLES: [RoleFilter; 5] = [
    RoleFilter::Top,
    RoleFilter::Jungle,
    RoleFilter::Mid,
    RoleFilter::Bot,
    RoleFilter::Support,
];

#[test]
fn draft_roles_use_ordered_game_positions_and_only_fallback_when_missing() {
    let catalog = vec![brief("yone", "Yone", vec![RoleFilter::Top, RoleFilter::Mid])];

    assert_eq!(
        game_roles("yone", &catalog),
        vec![RoleFilter::Top, RoleFilter::Mid]
    );
    assert_eq!(game_roles("unknown", &catalog), ALL_ROLES.to_vec());
}

#[test]
fn champions_without_positions_may_play_every_role() {
    let catalog = vec![brief("mystery", "Mystery", Vec::new())];
    assert_eq!(game_roles("mystery", &catalog), ALL_ROLES.to_vec());
    assert_eq!(
        role_sets(&strings(&["mystery", "unknown"]), &catalog),
        vec![ALL_ROLES.to_vec(), ALL_ROLES.to_vec()]
    );
}

#[test]
fn career_active_ids_are_the_only_catalog_members() {
    let metadata = vec![
        brief("base_archer", "Archer", vec![RoleFilter::Bot]),
        brief("removed_mage", "Removed", Vec::new()),
    ];

    let catalog = catalog_for_active_ids(
        &[
            ActiveChampionCatalogEntry {
                champion_id: "other_mod_dragon".to_owned(),
                positions: vec![RoleFilter::Jungle, RoleFilter::Mid],
            },
            ActiveChampionCatalogEntry {
                champion_id: "base_archer".to_owned(),
                positions: vec![RoleFilter::Top, RoleFilter::Bot],
            },
        ],
        &metadata,
    );

    assert_eq!(
        catalog
            .iter()
            .map(|row| row.champion_id.as_str())
            .collect::<Vec<_>>(),
        vec!["base_archer", "other_mod_dragon"]
    );
    assert_eq!(catalog[0].positions, vec![RoleFilter::Top, RoleFilter::Bot]);
    assert_eq!(catalog[0].main_position, Some(RoleFilter::Top));
    assert_eq!(
        catalog[1].positions,
        vec![RoleFilter::Jungle, RoleFilter::Mid]
    );
}

#[test]
fn active_catalog_names_unknown_champions_and_keeps_the_first_positions() {
    let catalog = catalog_for_active_ids(
        &[
            ActiveChampionCatalogEntry {
                champion_id: "fire_drake".to_owned(),
                positions: vec![RoleFilter::Support],
            },
            ActiveChampionCatalogEntry {
                champion_id: "fire_drake".to_owned(),
                positions: vec![RoleFilter::Top],
            },
        ],
        &[],
    );
    assert_eq!(catalog.len(), 1);
    assert_eq!(catalog[0].display_name, "Fire Drake");
    assert_eq!(catalog[0].positions, vec![RoleFilter::Support]);
    assert_eq!(catalog[0].stat, zero_stat());
}

#[test]
fn tier_rows_include_champions_registered_by_other_mods() {
    let rows = tier_row_sources(&strings(&["archer"]), &[], &strings(&["other_mod_dragon"]));
    assert_eq!(
        rows.iter()
            .map(|row| row.champion_id.as_str())
            .collect::<Vec<_>>(),
        vec!["archer", "other_mod_dragon"]
    );
    assert!(rows.iter().all(|row| row.scored_at.is_none()));
}

#[test]
fn only_registered_champions_take_their_scores() {
    let rows = tier_row_sources(
        &strings(&["zed"]),
        &strings(&["ahri", "zed", "ahri"]),
        &strings(&["ahri"]),
    );
    assert_eq!(
        rows,
        vec![
            TierRowSource {
                champion_id: "ahri".to_owned(),
                scored_at: Some(2),
            },
            TierRowSource {
                champion_id: "zed".to_owned(),
                scored_at: None,
            },
        ]
    );
}

fn draft_state() -> MockDraftState {
    let mut state = MockDraftState::initial();
    state.available_champions = strings(&["ahri", "garen", "lux", "thresh", "zed"]);
    state.sets[0].blue_picks = strings(&["garen"]);
    state.sets[0].red_bans = strings(&["zed"]);
    state
}

fn draft_catalog() -> Vec<ChampionBriefState> {
    vec![
        brief("ahri", "Ahri", vec![RoleFilter::Mid]),
        brief("garen", "Garen", vec![RoleFilter::Top]),
        brief("lux", "Lux", vec![RoleFilter::Mid, RoleFilter::Support]),
        brief("thresh", "Thresh", vec![RoleFilter::Support]),
    ]
}

#[test]
fn pool_leaves_out_used_and_carried_over_champions() {
    let mut state = draft_state();
    state.excluded_blue = strings(&["lux"]);
    let pool = recommendation_pool(&state, &draft_catalog());
    assert_eq!(
        pool.iter().map(|c| c.champion_id.as_str()).collect::<Vec<_>>(),
        vec!["ahri", "thresh"]
    );
    assert_eq!(pool[0].roles, vec![RoleFilter::Mid]);
    assert_eq!(pool[0].confidence, DraftRoleConfidence::High);
}

#[test]
fn pick_role_gate_keeps_out_champions_no_role_is_left_for() {
    let mut state = draft_state();
    state.last_own_phase = DraftPhase::Pick;
    state.settings.pick_role_gate = true;
    state.sets[0].blue_picks = strings(&["garen", "ahri", "thresh"]);
    state.available_champions = strings(&["lux", "garen2", "nobody"]);
    let catalog = {
        let mut catalog = draft_catalog();
        catalog.push(brief("garen2", "Garen Two", vec![RoleFilter::Top]));
        catalog
    };
    let pool = recommendation_pool(&state, &catalog);
    assert_eq!(
        pool.iter().map(|c| c.champion_id.as_str()).collect::<Vec<_>>(),
        vec!["nobody"]
    );
    assert_eq!(pool[0].confidence, DraftRoleConfidence::Low);
}

#[test]
fn lineup_fills_open_roles_first_then_the_best_ranked() {
    let catalog = draft_catalog();
    let lineup = fill_lineup(
        &strings(&["garen"]),
        &strings(&["ahri", "lux", "thresh", "zed", "extra"]),
        &catalog,
    );
    assert_eq!(lineup, strings(&["garen", "zed", "ahri", "extra", "lux"]));
}

#[test]
fn lineup_stays_as_it_is_when_five_are_picked() {
    let picks = strings(&["a", "b", "c", "d", "e"]);
    assert_eq!(fill_lineup(&picks, &strings(&["f"]), &[]), picks);
}

#[test]
fn notes_report_missing_history_conflicts_and_low_confidence() {
    let mut state = draft_state();
    let catalog = draft_catalog();
    assert_eq!(
        recommendation_notes(&state, &catalog, false, true),
        strings(&["opponent_history_unavailable", "low_role_confidence_present"])
    );
    state.sets[0].red_picks = strings(&["thresh", "lux"]);
    state.sets[0].blue_picks = strings(&["garen", "garen"]);
    assert_eq!(
        recommendation_notes(&state, &catalog, true, false),
        strings(&["role_assignment_conflict"])
    );
    state.sets[0].our_side = DraftSide::Red;
    assert_eq!(
        recommendation_notes(&state, &catalog, true, false),
        strings(&["role_assignment_conflict"])
    );
}

fn team(team_id: usize, name: Option<&str>, league_id: Option<usize>) -> TeamEntry {
    TeamEntry {
        team_id,
        name: name.map(ToOwned::to_owned),
        league_id,
    }
}

#[test]
fn opponents_list_the_player_team_then_its_league_then_by_name() {
    let options = order_team_options(
        &[
            team(4, Some("Zeta"), Some(1)),
            team(2, None, Some(0)),
            team(7, Some("Alpha"), Some(0)),
            team(3, Some("Mid"), Some(1)),
            team(9, Some("Alpha"), Some(0)),
        ],
        Some(3),
        Some(1),
    );
    assert_eq!(
        options
            .iter()
            .map(|option| (option.team_id, option.team_name.as_str(), option.player_team))
            .collect::<Vec<_>>(),
        vec![
            (3, "Mid", true),
            (4, "Zeta", false),
            (7, "Alpha", false),
            (9, "Alpha", false),
            (2, "Team 2", false),
        ]
    );
}

#[test]
fn without_a_player_league_teams_are_listed_by_name() {
    let options = order_team_options(
        &[team(5, Some("B"), Some(1)), team(6, Some("A"), Some(1))],
        None,
        None,
    );
    assert_eq!(options[0].team_id, 6);
    assert_eq!(options[1].team_id, 5);
}
