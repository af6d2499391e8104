use serde_json::Value;
use tfm2_atlas::runtime::Diagnostic;
use tfm2_atlas::schema::{
    community_checks, failure_message, first_record_diagnostics, rule_broken, schema_outcome,
    shape_failures, validate_community_shapes, CommunityRecord, FirstRecordRead, JsonKind,
    ShapeCheck, ShapeRule,
};

fn parse(text: &str) -> Value {
    serde_json::from_str(text).unwrap()
}

fn fixtures() -> (Value, Value, Value) {
    let athlete = parse(
        r#"{
        "id": 1, "name": "Player", "age": 20,
        "stat": {
            "last_hit": 50, "skill_avoid": 50, "skill_hit": 50, "control_speed": 50,
            "positioning": 50, "judgement": 50, "mental": 50, "concentration": 50,
            "order": 50, "roaming": 50, "aggressive": 50, "ego": 50,
            "top": 100, "jungle": 0, "mid": 0, "bottom": 0, "support": 0,
            "language": {"0": 100}
        },
        "hidden": {"potential": 60},
        "contract": {"InContract": {"team_id": 0, "weekly_salary": 1, "start_date": "2026-01-01", "end_date": "2027-01-01", "transfer_fee": 0, "incentives": [], "transfer_requests": [], "recruit_requests": []}},
        "champion_proficiency": {"champion": {"value": 500}},
        "management": {"stamina": 100, "stress": 17, "condition": 50},
        "training_exp": {"language_by_region": {}}
    }"#,
    );
    let staff = parse(
        r#"{
        "id": 2, "name": "Coach", "age": 40, "role": "HeadCoach",
        "stat": {"banpick": 50, "strategy": 50, "negotiation": 50, "judge_ability": 50, "judge_potential": 50, "feedback": 50, "power_analysis": 50, "control_coaching": 50, "judgment_coaching": 50, "mental_coaching": 50},
        "language": {"0": 100},
        "contract": {"InContract": {"team_id": 0, "weekly_salary": 1, "start_date": "2026-01-01", "end_date": "2027-01-01", "transfer_requests": [], "recruit_requests": []}}
    }"#,
    );
    let team = parse(
        r#"{
        "id": 0, "name": "Team", "manager_name": "Manager", "league_id": 0,
        "champion_tiers": {"champion": "A"}, "total_balance": 1,
        "transfer_budget": 1, "salary_budget": 1, "training_facility_grade": "S",
        "merchandise_facility_grade": "A", "stadium": {"grade": "B"}
    }"#,
    );
    (athlete, staff, team)
}

#[test]
fn all_public_community_paths_are_preflighted() {
    let (athlete, staff, team) = fixtures();
    assert!(validate_community_shapes(&athlete, &staff, &team).is_ok());

    let (athlete, staff, mut team) = fixtures();
    team.as_object_mut().unwrap().remove("salary_budget");
    let failures = validate_community_shapes(&athlete, &staff, &team).unwrap_err();
    assert!(failures
        .iter()
        .any(|failure| failure == "Team.salary_budget"));

    let (mut athlete, staff, team) = fixtures();
    athlete["stat"]["last_hit"] = Value::String("50".to_owned());
    let failures = validate_community_shapes(&athlete, &staff, &team).unwrap_err();
    assert!(failures
        .iter()
        .any(|failure| failure == "Athlete.stat.last_hit (expected number)"));
}

#[test]
fn tfm2_0_5_5_facility_grades_are_tier_strings() {
    let (athlete, staff, team) = fixtures();

    assert!(
        validate_community_shapes(&athlete, &staff, &team).is_ok(),
        "0.5.5 serializes facility grades as tier names such as S, A, and B"
    );
}

#[test]
fn missing_paths_are_reported_before_wrong_kinds_in_check_order() {
    let (mut athlete, mut staff, team) = fixtures();
    athlete["stadium"] = Value::Null;
    athlete["name"] = Value::from(7);
    staff.as_object_mut().unwrap().remove("role");
    staff["contract"] = Value::from(3);
    let failures = validate_community_shapes(&athlete, &staff, &team).unwrap_err();
    assert_eq!(
        failures,
        vec![
            "Staff.role".to_owned(),
            "Staff.contract (expected object)".to_owned(),
            "Athlete.name (expected string)".to_owned(),
        ]
    );
}

#[test]
fn failure_messages_write_pointers_as_dotted_paths() {
    let check = ShapeCheck {
        record: CommunityRecord::Team,
        path: "//stadium/grade",
        rule: ShapeRule::Text,
    };
    assert_eq!(failure_message(&check), "Team.stadium.grade (expected string)");
    let check = ShapeCheck {
        record: CommunityRecord::Athlete,
        path: "/id",
        rule: ShapeRule::Present,
    };
    assert_eq!(failure_message(&check), "Athlete.id");
}

#[test]
fn kind_rules_apply_only_to_present_paths() {
    assert!(rule_broken(ShapeRule::Present, None));
    assert!(!rule_broken(ShapeRule::Number, None));
    assert!(rule_broken(ShapeRule::Number, Some(JsonKind::String)));
    assert!(!rule_broken(ShapeRule::Object, Some(JsonKind::Object)));
    assert!(rule_broken(ShapeRule::Text, Some(JsonKind::Null)));
}

#[test]
fn shape_failures_keep_the_order_of_the_checks() {
    let checks = community_checks();
    let mut found: Vec<Option<JsonKind>> = checks
        .iter()
        .map(|check| match check.rule {
            ShapeRule::Present | ShapeRule::Text => Some(JsonKind::String),
            ShapeRule::Number => Some(JsonKind::Number),
            ShapeRule::Object => Some(JsonKind::Object),
        })
        .collect();
    found[1] = None;
    found[checks.len() - 1] = Some(JsonKind::Array);
    let failures = shape_failures(&checks, &found);
    assert_eq!(failures.len(), 2);
    assert_eq!(failures[0], "Athlete.name");
    assert_eq!(failures[1], "Team.stadium.grade (expected string)");
}

#[test]
fn first_record_checks_report_the_first_thing_that_went_wrong() {
    let paths = ["id", "stat", "champion_proficiency"];
    let empty = first_record_diagnostics("Athlete", &paths, &FirstRecordRead::Empty);
    assert_eq!(empty.len(), 1);
    assert_eq!(empty[0].code, "record_table_empty");
    assert_eq!(empty[0].message, "Athlete record table is empty");
    assert!(empty[0].fatal);

    let unreadable = first_record_diagnostics("Staff", &paths, &FirstRecordRead::Unreadable { id: 12 });
    assert_eq!(unreadable[0].message, "Could not read Staff record 12");

    let invalid = first_record_diagnostics("Team", &paths, &FirstRecordRead::InvalidJson { id: 0 });
    assert_eq!(invalid[0].code, "record_json_invalid");
    assert_eq!(invalid[0].message, "Team record 0 is not valid JSON");

    let read = first_record_diagnostics(
        "Athlete",
        &paths,
        &FirstRecordRead::Read {
            id: 1,
            present: vec![true, false, false],
        },
    );
    assert_eq!(
        read.iter().map(|d| d.message.as_str()).collect::<Vec<_>>(),
        vec![
            "Athlete.stat is unavailable in 0.5.5 record JSON",
            "Athlete.champion_proficiency is unavailable in 0.5.5 record JSON",
        ]
    );
    assert!(read.iter().all(|d| d.code == "record_path_missing" && d.fatal));
}

#[test]
fn schema_is_ready_only_without_any_failure() {
    let (ready, diagnostics) = schema_outcome(Vec::new(), &[]);
    assert!(ready);
    assert_eq!(diagnostics.len(), 1);
    assert_eq!(diagnostics[0].code, "schema_0_5_5_ready");
    assert!(!diagnostics[0].fatal);

    let (ready, diagnostics) = schema_outcome(
        vec![Diagnostic::new("record_table_empty", "Team record table is empty", true)],
        &["Team.salary_budget".to_owned()],
    );
    assert!(!ready);
    assert_eq!(diagnostics.len(), 2);
    assert_eq!(diagnostics[1].code, "community_schema_invalid");
    assert_eq!(
        diagnostics[1].message,
        "Required 0.5.5 Community field is missing or invalid: Team.salary_budget"
    );
}
