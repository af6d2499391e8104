use std::collections::BTreeMap;

use tfm2_atlas::editor::{
    validate_communication, validate_exact_stat_map, validate_optional_name, with_time, validate_contract_values, validate_player_edit, validate_staff_edit, ContractDates, PlayerEditValues, StaffEditValues, recruitment_patch, RecruitmentPatch, RecruitmentRequestView,
};
use tfm2_atlas::api::MasteryEdit;

#[test]
fn names_are_trimmed_bounded_and_free_of_control_characters() {
    assert!(validate_optional_name(None).is_ok());
    assert!(validate_optional_name(Some("  Faker  ")).is_ok());
    assert_eq!(validate_optional_name(Some("   ")).unwrap_err(), "INVALID_NAME");
    assert_eq!(validate_optional_name(Some("a\u{7}b")).unwrap_err(), "INVALID_NAME");
    assert!(validate_optional_name(Some(&"한".repeat(100))).is_ok());
    assert!(validate_optional_name(Some(&"x".repeat(101))).is_err());
}

#[test]
fn stat_maps_need_known_keys_before_values_are_checked() {
    let allowed = ["top", "mid"];
    assert!(validate_exact_stat_map(&[("top".to_owned(), 50)], &allowed, 0, 100).is_ok());
    assert_eq!(
        validate_exact_stat_map(
            &[("mid".to_owned(), 500), ("bot".to_owned(), 1)],
            &allowed,
            0,
            100
        )
        .unwrap_err(),
        "UNKNOWN_STAT"
    );
    assert_eq!(
        validate_exact_stat_map(&[("mid".to_owned(), 0)], &allowed, 1, 100).unwrap_err(),
        "STAT_OUT_OF_RANGE"
    );
}

#[test]
fn communication_regions_and_values_are_bounded() {
    assert!(validate_communication(None).is_ok());
    let good = BTreeMap::from([(0, 100), (5, 0)]);
    assert!(validate_communication(Some(&good)).is_ok());
    let region = BTreeMap::from([(6, 50)]);
    assert_eq!(
        validate_communication(Some(&region)).unwrap_err(),
        "COMMUNICATION_OUT_OF_RANGE"
    );
    let value = BTreeMap::from([(1, -1)]);
    assert!(validate_communication(Some(&value)).is_err());
}

#[test]
fn dates_keep_the_current_time_of_day() {
    assert_eq!(
        with_time("2027-01-01", "2026-05-05T10:00:00", "T00:00:00"),
        "2027-01-01T10:00:00"
    );
    assert_eq!(with_time("2027-01-01", "2026-05-05", "T00:00:00"), "2027-01-01T00:00:00");
}

fn player_edit() -> PlayerEditValues {
    PlayerEditValues {
        name: Some("  Faker ".to_owned()),
        age: Some(28),
        stats: vec![("mental".to_owned(), 100), ("ego".to_owned(), 1)],
        positions: vec![("mid".to_owned(), 100), ("top".to_owned(), 0)],
        potential: Some(99),
        stamina: Some(0),
        stress: None,
        condition: Some(100),
        salary_in_range: true,
        communication: None,
        mastery: vec![MasteryEdit {
            champion_id: "ahri".to_owned(),
            value: 100,
        }],
        contract: Some(ContractDates {
            start_date: "2026-01-01".to_owned(),
            end_date: "2027-01-01".to_owned(),
            values_nonnegative: true,
        }),
    }
}

#[test]
fn a_player_edit_within_every_range_is_accepted() {
    assert_eq!(validate_player_edit(&player_edit()), Ok(()));
}

#[test]
fn player_edits_report_the_first_broken_rule() {
    let mut edit = player_edit();
    edit.age = Some(15);
    edit.potential = Some(0);
    assert_eq!(validate_player_edit(&edit), Err("AGE_OUT_OF_RANGE".to_owned()));

    let mut edit = player_edit();
    edit.positions = vec![
        ("top".to_owned(), 1),
        ("jungle".to_owned(), 1),
        ("mid".to_owned(), 1),
        ("bottom".to_owned(), 1),
    ];
    assert_eq!(validate_player_edit(&edit), Err("TOO_MANY_POSITIONS".to_owned()));

    let mut edit = player_edit();
    edit.positions = vec![("lane".to_owned(), 1)];
    assert_eq!(validate_player_edit(&edit), Err("UNKNOWN_STAT".to_owned()));

    let mut edit = player_edit();
    edit.stats = vec![("mental".to_owned(), 0)];
    assert_eq!(validate_player_edit(&edit), Err("STAT_OUT_OF_RANGE".to_owned()));

    let mut edit = player_edit();
    edit.potential = Some(101);
    assert_eq!(validate_player_edit(&edit), Err("POTENTIAL_OUT_OF_RANGE".to_owned()));

    let mut edit = player_edit();
    edit.stress = Some(-1);
    assert_eq!(validate_player_edit(&edit), Err("CONDITION_OUT_OF_RANGE".to_owned()));

    let mut edit = player_edit();
    edit.salary_in_range = false;
    edit.communication = Some(BTreeMap::from([(6, 50)]));
    assert_eq!(validate_player_edit(&edit), Err("SALARY_OUT_OF_RANGE".to_owned()));

    let mut edit = player_edit();
    edit.communication = Some(BTreeMap::from([(6, 50)]));
    assert_eq!(
        validate_player_edit(&edit),
        Err("COMMUNICATION_OUT_OF_RANGE".to_owned())
    );

    let mut edit = player_edit();
    edit.mastery.push(MasteryEdit {
        champion_id: "  ".to_owned(),
        value: 5,
    });
    assert_eq!(validate_player_edit(&edit), Err("INVALID_MASTERY".to_owned()));

    let mut edit = player_edit();
    edit.name = Some("\u{7}".to_owned());
    assert_eq!(validate_player_edit(&edit), Err("INVALID_NAME".to_owned()));
}

#[test]
fn contracts_must_not_end_before_they_start_or_hold_negative_values() {
    let mut contract = ContractDates {
        start_date: "2026-02-01".to_owned(),
        end_date: "2026-01-31".to_owned(),
        values_nonnegative: false,
    };
    assert_eq!(
        validate_contract_values(&contract),
        Err("CONTRACT_END_BEFORE_START".to_owned())
    );
    contract.end_date = "2026-02-01".to_owned();
    assert_eq!(
        validate_contract_values(&contract),
        Err("CONTRACT_VALUE_OUT_OF_RANGE".to_owned())
    );
    contract.values_nonnegative = true;
    assert_eq!(validate_contract_values(&contract), Ok(()));
}

#[test]
fn staff_edits_check_staff_stats_and_the_contract_last() {
    let mut edit = StaffEditValues {
        name: None,
        age: Some(40),
        stats: vec![("banpick".to_owned(), 50)],
        salary_in_range: true,
        communication: Some(BTreeMap::from([(0, 100)])),
        contract: None,
    };
    assert_eq!(validate_staff_edit(&edit), Ok(()));
    edit.stats = vec![("mental".to_owned(), 50)];
    assert_eq!(validate_staff_edit(&edit), Err("UNKNOWN_STAT".to_owned()));
    edit.stats = Vec::new();
    edit.contract = Some(ContractDates {
        start_date: "2027".to_owned(),
        end_date: "2026".to_owned(),
        values_nonnegative: true,
    });
    assert_eq!(
        validate_staff_edit(&edit),
        Err("CONTRACT_END_BEFORE_START".to_owned())
    );
}

fn request_view(team_id: Option<u64>) -> RecruitmentRequestView {
    RecruitmentRequestView {
        team_id,
        has_last_date: true,
        cooldown_is_last_date: false,
        last_paper_accepted: Some(false),
    }
}

#[test]
fn recruitment_overrides_touch_only_the_player_team_requests() {
    assert_eq!(
        recruitment_patch(request_view(Some(3)), 3, true, true),
        RecruitmentPatch {
            end_cooldown: true,
            accept_last_paper: true,
        }
    );
    assert_eq!(
        recruitment_patch(request_view(Some(4)), 3, true, true),
        RecruitmentPatch {
            end_cooldown: false,
            accept_last_paper: false,
        }
    );
    assert_eq!(
        recruitment_patch(request_view(None), 3, true, true),
        RecruitmentPatch {
            end_cooldown: false,
            accept_last_paper: false,
        }
    );
}

#[test]
fn recruitment_overrides_leave_settled_requests_alone() {
    let settled = RecruitmentRequestView {
        team_id: Some(3),
        has_last_date: true,
        cooldown_is_last_date: true,
        last_paper_accepted: Some(true),
    };
    assert_eq!(
        recruitment_patch(settled, 3, true, true),
        RecruitmentPatch {
            end_cooldown: false,
            accept_last_paper: false,
        }
    );
    let paperless = RecruitmentRequestView {
        team_id: Some(3),
        has_last_date: false,
        cooldown_is_last_date: false,
        last_paper_accepted: None,
    };
    assert_eq!(
        recruitment_patch(paperless, 3, true, true),
        RecruitmentPatch {
            end_cooldown: false,
            accept_last_paper: false,
        }
    );
    assert!(!recruitment_patch(request_view(Some(3)), 3, false, true).accept_last_paper);
    assert!(!recruitment_patch(request_view(Some(3)), 3, true, false).end_cooldown);
}
