use std::sync::atomic::{AtomicU8, Ordering};

use tfm2_atlas::api::ApiSurface;
use tfm2_atlas::catalog::{
    active_payload_panics, hex_decode, hex_decode_panics, parse_active_champion_payload,
    ActiveChampionCatalogEntry,
};
use tfm2_atlas::profile::RoleFilter;
use tfm2_atlas::runtime::{bridge_command, bridge_response_event, ClientExtension, Diagnostic};
use tfm2_atlas::wire::hex_encode;

use tfm2_atlas::protocol::{is_frame_prefix, MAX_FRAME_BYTES};
use tfm2_atlas::requests::{
    cancel_pending_request, claim_step, try_begin_request, REQUEST_CANCELLED, REQUEST_DONE,
    REQUEST_PENDING,
    REQUEST_PROCESSING,
};
use tfm2_atlas::runtime::{
    player_detail_value_paths, readable_champion_name, staff_detail_value_paths,
    CatalogStatus, ChampionBriefState, ChampionCatalog, ChampionStatState, EngineStatus,
    RuntimePublicState, whole_record_write_route, RecordKind, WholeRecordWriteRoute,
    index_work_step, refreshed_catalog, IndexWorkStep, NONE_ID, TierApplicationState,
};

#[test]
fn client_ui_sync_uses_the_live_0_5_5_detail_paths() {
    assert!(player_detail_value_paths("last_hit")
        .iter()
        .any(|path| path.ends_with("data.info.last_hit.value")));
    assert!(staff_detail_value_paths("banpick")
        .iter()
        .any(|path| path.ends_with("staff_detail.banpick.value")));
}

#[test]
fn timed_out_pending_request_cannot_execute_on_a_later_tick() {
    let execution = AtomicU8::new(REQUEST_PENDING);
    assert!(cancel_pending_request(&execution));
    assert!(!try_begin_request(&execution));
    assert_eq!(execution.load(Ordering::Acquire), REQUEST_CANCELLED);
}

#[test]
fn timeout_cannot_cancel_a_request_that_already_started() {
    let execution = AtomicU8::new(REQUEST_PENDING);
    assert!(try_begin_request(&execution));
    assert!(!cancel_pending_request(&execution));
    assert_eq!(execution.load(Ordering::Acquire), REQUEST_PROCESSING);
}

#[test]
fn maximum_sized_frame_is_recognized_without_protocol_metadata() {
    assert!(is_frame_prefix(0));
    assert!(is_frame_prefix((MAX_FRAME_BYTES >> 24) as u8));
    assert!(!is_frame_prefix(b'P'));
}

#[test]
fn readable_names_capitalize_each_piece_of_the_id() {
    assert_eq!(readable_champion_name("wythm_cassiopeia"), "Wythm Cassiopeia");
    assert_eq!(readable_champion_name("base-archer__x"), "Base Archer X");
    assert_eq!(readable_champion_name("_-_"), "Unknown Champion");
    assert_eq!(readable_champion_name(""), "Unknown Champion");
    assert_eq!(readable_champion_name("élan"), "Élan");
}

#[test]
fn detail_paths_list_every_layout_in_order() {
    assert_eq!(
        player_detail_value_paths("mental"),
        vec![
            "main.top.right.player_detail.data.info.mental.value".to_owned(),
            "main.top.right.player_detail.info.mental.value".to_owned(),
        ]
    );
    assert_eq!(staff_detail_value_paths("strategy").len(), 3);
    assert_eq!(
        staff_detail_value_paths("strategy")[2],
        "main.top.right.staff_detail.data.strategy.value"
    );
}

#[test]
fn active_catalog_payload_is_exact_sorted_and_deduplicated() {

    let cassiopeia = hex_encode("wythm_cassiopeia");
    let archer = hex_encode("archer");
    let parsed = parse_active_champion_payload(&format!(
        "{cassiopeia},Top+Mid;{archer},Bottom;{cassiopeia},Top+Mid"
    ))
    .unwrap();

    assert_eq!(
        parsed,
        vec![
            ActiveChampionCatalogEntry {
                champion_id: "archer".to_owned(),
                positions: vec![RoleFilter::Bot],
            },
            ActiveChampionCatalogEntry {
                champion_id: "wythm_cassiopeia".to_owned(),
                positions: vec![RoleFilter::Top, RoleFilter::Mid],
            },
        ]
    );
    assert!(parse_active_champion_payload("not-hex").is_err());
    assert!(parse_active_champion_payload(&format!("{archer},Unknown")).is_err());
}

#[test]
fn catalog_entries_keep_their_first_positions_and_skip_blank_ids() {

    let knight = hex_encode("knight");
    let blank = hex_encode("  ");
    let parsed = parse_active_champion_payload(&format!(
        "{knight},Mid+Mid+Top+Unknown;;{blank},Top;{knight},Jungle"
    ))
    .unwrap();
    assert_eq!(parsed.len(), 1);
    assert_eq!(parsed[0].champion_id, "knight");
    assert_eq!(parsed[0].positions, vec![RoleFilter::Mid, RoleFilter::Top]);
    assert_eq!(
        parse_active_champion_payload(&format!("{knight},Bad")).unwrap_err(),
        "INVALID_CHAMPION_POSITION"
    );
    assert_eq!(parse_active_champion_payload("").unwrap(), vec![]);
    assert_eq!(hex_decode("+a").unwrap(), "\n");
    assert_eq!(hex_decode("4A").unwrap(), "J");
    assert_eq!(hex_decode("4").unwrap_err(), "INVALID_HEX");
}

#[test]
fn bridge_names_depend_on_the_surface() {

    assert_eq!(bridge_command(ApiSurface::Core), "tfm2_atlas_core.bridge");
    assert_eq!(
        bridge_response_event(ApiSurface::Editor),
        "tfm2_atlas_editor.bridge_response"
    );
    assert_eq!(ClientExtension::for_core().surface(), ApiSurface::Core);
    assert_eq!(ClientExtension::editor().surface(), ApiSurface::Editor);
    let diagnostic = Diagnostic::new("bridge_port_in_use", "port taken", true);
    assert_eq!(diagnostic.code, "bridge_port_in_use");
    assert!(diagnostic.fatal);
}

fn zero_stat() -> ChampionStatState {
    ChampionStatState {
        attack: 0,
        magic_power: 0,
        hp: 0,
        defence: 0,
        magic_resistance: 0,
        move_speed: 0,
        hp_regen: 0,
        stack: 0,
        crit_chance: 0,
    }
}

#[test]
fn disconnect_clears_live_data_instead_of_publishing_stale_career_state() {
    let mut state: RuntimePublicState<(), ()> = RuntimePublicState {
        connected: true,
        engine_status: EngineStatus::Ready,
        indexed_matches: 42,
        pending_records: 3,
        data_revision: 9,
        player_team_id: Some(7),
        champion_info: vec![ChampionBriefState {
            champion_id: "other_mod_dragon".to_owned(),
            display_name: "모드 드래곤".to_owned(),
            category: None,
            tags: Vec::new(),
            positions: vec![RoleFilter::Top],
            main_position: Some(RoleFilter::Top),
            stat: zero_stat(),
            growth: zero_stat(),
        }],
        ..RuntimePublicState::default()
    };

    state.mark_disconnected();

    assert!(!state.connected);
    assert_eq!(state.engine_status, EngineStatus::WaitingForCareer);
    assert_eq!(state.indexed_matches, 0);
    assert_eq!(state.pending_records, 0);
    assert_eq!(state.data_revision, 0);
    assert_eq!(state.player_team_id, None);
    assert!(state.analytics.is_none());
    assert!(state.locks.is_empty());
    assert!(state.champion_info.is_empty());
}

#[test]
fn disconnect_moves_the_catalog_revision_and_keeps_the_profiles() {
    let mut state: RuntimePublicState<u8, u8> = RuntimePublicState {
        analytics: Some(1),
        locks: vec![2, 3],
        champion_catalog: ChampionCatalog {
            revision: u64::MAX,
            status: CatalogStatus::Ready,
            champions: Vec::new(),
        },
        ..RuntimePublicState::default()
    };
    state.active_profile.patch = Some("0.5.5".to_owned());
    state.mark_disconnected();
    assert_eq!(state.champion_catalog.revision, 0);
    assert_eq!(state.champion_catalog.status, CatalogStatus::Unavailable);
    assert_eq!(state.active_profile.patch.as_deref(), Some("0.5.5"));
    assert_eq!(state.game_version, "0.5.5");
    assert!(state.analytics.is_none() && state.locks.is_empty());
}

#[test]
fn whole_record_writes_use_the_sdk_specialized_management_routes() {
    assert_eq!(
        whole_record_write_route(RecordKind::Team),
        WholeRecordWriteRoute::Team
    );
    assert_eq!(
        whole_record_write_route(RecordKind::Athlete),
        WholeRecordWriteRoute::Athlete
    );
    assert_eq!(
        whole_record_write_route(RecordKind::Staff),
        WholeRecordWriteRoute::Generic
    );
}

#[test]
fn a_refreshed_catalog_moves_its_revision_and_is_ready_once_champions_are_known() {
    let empty = refreshed_catalog(Some(4), Vec::new());
    assert_eq!(empty.revision, 5);
    assert_eq!(empty.status, CatalogStatus::Loading);
    let first = refreshed_catalog(None, Vec::new());
    assert_eq!(first.revision, 1);
    let ready = refreshed_catalog(
        Some(u64::MAX),
        vec![ChampionBriefState {
            champion_id: "ahri".to_owned(),
            display_name: "Ahri".to_owned(),
            category: None,
            tags: Vec::new(),
            positions: Vec::new(),
            main_position: None,
            stat: zero_stat(),
            growth: zero_stat(),
        }],
    );
    assert_eq!(ready.revision, 0);
    assert_eq!(ready.status, CatalogStatus::Ready);
    assert_eq!(ready.champions.len(), 1);
}

#[test]
fn index_work_is_asked_for_every_quarter_second_while_indexing_a_career() {
    assert_eq!(index_work_step(true, 3, 250_000), IndexWorkStep::Send);
    assert_eq!(index_work_step(true, 3, 249_999), IndexWorkStep::Wait);
    assert_eq!(index_work_step(true, NONE_ID, 900_000), IndexWorkStep::Wait);
    assert_eq!(index_work_step(false, 3, 900_000), IndexWorkStep::Reset);
}

#[test]
fn applying_an_enabled_profile_marks_readback_and_advances_the_revision() {
    let before = TierApplicationState::default();
    let next = before.after_apply(true, Some(7), 12);
    assert!(next.applied);
    assert_eq!(next.team_id, Some(7));
    assert_eq!(next.profile_revision, 1);
    assert_eq!(next.applied_champions, 12);
    assert!(next.readback_verified);
    assert!(!next.client_screen_verified);
    assert_eq!(next.error, None);
}

#[test]
fn applying_a_disabled_profile_leaves_the_client_screen_in_charge() {
    let mut before = TierApplicationState::default();
    before.profile_revision = u64::MAX;
    let next = before.after_apply(false, None, 0);
    assert!(!next.applied);
    assert!(!next.readback_verified);
    assert!(next.client_screen_verified);
    assert_eq!(next.profile_revision, 0);
}

#[test]
fn a_failed_apply_keeps_the_revision_and_the_message() {
    let mut before = TierApplicationState::default();
    before.profile_revision = 4;
    let next = before.after_failed_apply(Some(3), "write refused".to_owned());
    assert!(!next.applied);
    assert_eq!(next.profile_revision, 4);
    assert_eq!(next.applied_champions, 0);
    assert_eq!(next.team_id, Some(3));
    assert_eq!(next.error.as_deref(), Some("write refused"));
}

#[test]
fn claim_step_moves_only_pending_requests() {
    assert_eq!(claim_step(REQUEST_PENDING, REQUEST_PROCESSING), Some(REQUEST_PROCESSING));
    assert_eq!(claim_step(REQUEST_PENDING, REQUEST_CANCELLED), Some(REQUEST_CANCELLED));
    assert_eq!(claim_step(REQUEST_PROCESSING, REQUEST_CANCELLED), None);
    assert_eq!(claim_step(REQUEST_CANCELLED, REQUEST_PROCESSING), None);
    assert_eq!(claim_step(REQUEST_DONE, REQUEST_PROCESSING), None);
}

#[test]
fn panicking_hex_and_payload_inputs_can_be_told_first() {
    assert!(hex_decode_panics("aéb"));
    assert!(!hex_decode_panics("4142"));
    assert!(!hex_decode_panics("zz"));
    assert!(!hex_decode_panics("abc"));
    assert!(active_payload_panics("4142;aéb,Top"));
    assert!(!active_payload_panics("4142;zzzz;aéb"));
    assert!(!active_payload_panics("4142,Top+Mid;;4344"));
}
