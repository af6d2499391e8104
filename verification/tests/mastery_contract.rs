use tfm2_atlas::mastery::{check_mastery_values, mastery_state, sort_for_listing, RecordedMastery};
use tfm2_atlas::runtime::{ChampionBriefState, ChampionMasteryValue, ChampionStatState};

fn zero_stat() -> ChampionStatState {
    ChampionStatState {
        attack: 0,
        magic_power: 0,
        hp: 0,
        defence: 0,
        magic_resistance: 0,
        move_speed: 0,
        hp_regen: 0,
        stack: 0,
        crit_chance: 0,
    }
}

fn brief(id: &str, name: &str) -> ChampionBriefState {
    ChampionBriefState {
        champion_id: id.to_owned(),
        display_name: name.to_owned(),
        category: None,
        tags: Vec::new(),
        positions: Vec::new(),
        main_position: None,
        stat: zero_stat(),
        growth: zero_stat(),
    }
}

fn recorded(id: &str, value: i64, floor: i64) -> RecordedMastery {
    RecordedMastery {
        champion_id: id.to_owned(),
        value,
        floor,
    }
}

fn value(id: &str, name: &str, value: i64, floor: i64, active: bool) -> ChampionMasteryValue {
    ChampionMasteryValue {
        champion_id: id.to_owned(),
        display_name: name.to_owned(),
        value,
        floor,
        active,
    }
}

#[test]
fn active_champions_are_listed_by_name_with_scaled_values() {
    let catalog = vec![brief("zed", "Zed"), brief("ahri", "Ahri"), brief("new_champ", "Ahri")];
    let state = mastery_state(
        4,
        &catalog,
        &[recorded("ahri", 505, 100), recorded("zed", 999, -15)],
    );
    assert_eq!(state.athlete_id, 4);
    assert_eq!(
        state.active,
        vec![
            value("ahri", "Ahri", 50, 10, true),
            value("new_champ", "Ahri", 0, 0, true),
            value("zed", "Zed", 99, -1, true),
        ]
    );
    assert!(state.inactive.is_empty());
}

#[test]
fn champions_outside_the_catalog_are_listed_as_inactive() {
    let catalog = vec![brief("ahri", "Ahri")];
    let state = mastery_state(
        9,
        &catalog,
        &[recorded("old_mage", 70, 0), recorded("ahri", 10, 0), recorded("ancient_one", 31, 20)],
    );
    assert_eq!(state.active, vec![value("ahri", "Ahri", 1, 0, true)]);
    assert_eq!(
        state.inactive,
        vec![
            value("ancient_one", "Ancient One", 3, 2, false),
            value("old_mage", "Old Mage", 7, 0, false),
        ]
    );
}

#[test]
fn listing_order_is_by_name_then_id() {
    let sorted = sort_for_listing(vec![
        value("b", "Same", 1, 0, true),
        value("c", "Alpha", 2, 0, true),
        value("a", "Same", 3, 0, true),
    ]);
    assert_eq!(
        sorted.iter().map(|v| v.champion_id.as_str()).collect::<Vec<_>>(),
        vec!["c", "a", "b"]
    );
}

fn mastery(values: &[(&str, i64)]) -> Vec<(String, i64)> {
    values.iter().map(|(id, value)| (id.to_string(), *value)).collect()
}

#[test]
fn mastery_values_need_one_to_512_entries_in_range_with_unique_ids() {
    let range = "Mastery values must contain 1-512 entries in the 0-100 range";
    let ids = "Champion ids must be non-empty and unique";
    assert_eq!(check_mastery_values(&mastery(&[("ahri", 0), ("lux", 100)])), Ok(()));
    assert_eq!(check_mastery_values(&[]), Err(range.to_owned()));
    let many: Vec<(String, i64)> = (0..513).map(|i| (format!("c{i}"), 50)).collect();
    assert_eq!(check_mastery_values(&many), Err(range.to_owned()));
    assert_eq!(check_mastery_values(&many[..512]), Ok(()));
    assert_eq!(check_mastery_values(&mastery(&[("ahri", 101)])), Err(range.to_owned()));
    assert_eq!(check_mastery_values(&mastery(&[("  ", 5), ("ahri", -1)])), Err(range.to_owned()));
    assert_eq!(check_mastery_values(&mastery(&[("ahri", 5), (" ", 5)])), Err(ids.to_owned()));
    assert_eq!(check_mastery_values(&mastery(&[("ahri", 5), ("ahri", 6)])), Err(ids.to_owned()));
    assert_eq!(check_mastery_values(&mastery(&[("ahri", 5), ("ahri ", 6)])), Ok(()));
}
