use tfm2_atlas::draft::{
    analyze_role_gate, candidate_passes_role_gate, remaining_roles_from_gate, role_order,
    DraftScoreWeights,
};
use tfm2_atlas::profile::RoleFilter;

#[test]
fn draft_defaults_match_the_approved_pick_and_ban_models() {
    let settings = DraftScoreWeights::default();

    assert_eq!(settings.pick_op, 40);
    assert_eq!(settings.pick_matchup, 20);
    assert_eq!(settings.pick_synergy, 20);
    assert_eq!(settings.pick_composition, 10);
    assert_eq!(settings.pick_denial, 10);
    assert!(settings.pick_role_gate);
    assert_eq!(settings.ban_preference, 40);
    assert_eq!(settings.ban_op, 60);
    assert!(!settings.ban_threat_enabled);
    assert!(!settings.ban_synergy_enabled);
    assert!(!settings.ban_composition_enabled);
    assert_eq!(settings.ban_threat, 10);
    assert_eq!(settings.ban_synergy, 10);
    assert_eq!(settings.ban_composition, 10);
    assert!(!settings.ban_role_gate);
}

#[test]
fn role_gate_enumerates_every_valid_flex_assignment() {
    let fixed = analyze_role_gate(&[
        vec![RoleFilter::Top, RoleFilter::Mid],
        vec![RoleFilter::Top, RoleFilter::Mid],
    ]);
    assert!(fixed.feasible);
    assert_eq!(
        fixed.definitely_filled,
        vec![RoleFilter::Top, RoleFilter::Mid]
    );
    assert!(!candidate_passes_role_gate(
        &[
            vec![RoleFilter::Top, RoleFilter::Mid],
            vec![RoleFilter::Top, RoleFilter::Mid],
        ],
        &[RoleFilter::Top],
    ));
    assert!(candidate_passes_role_gate(
        &[
            vec![RoleFilter::Top, RoleFilter::Mid],
            vec![RoleFilter::Top, RoleFilter::Mid],
        ],
        &[RoleFilter::Jungle],
    ));

    let conflict = analyze_role_gate(&[vec![RoleFilter::Top], vec![RoleFilter::Top]]);
    assert!(!conflict.feasible);
}

#[test]
fn gate_counts_assignments_and_reports_open_roles() {
    let gate = analyze_role_gate(&[vec![RoleFilter::Bot], vec![RoleFilter::Top, RoleFilter::Mid]]);
    assert!(gate.feasible);
    assert_eq!(gate.assignment_count, 2);
    assert_eq!(gate.definitely_filled, vec![RoleFilter::Bot]);
    assert_eq!(
        remaining_roles_from_gate(&gate),
        vec![RoleFilter::Top, RoleFilter::Jungle, RoleFilter::Mid, RoleFilter::Support]
    );
    let blocked = analyze_role_gate(&[vec![RoleFilter::Top], vec![RoleFilter::Top]]);
    assert_eq!(remaining_roles_from_gate(&blocked).len(), 5);
    assert!(candidate_passes_role_gate(
        &[vec![RoleFilter::Top], vec![RoleFilter::Top]],
        &[RoleFilter::Top]
    ));
    let empty = analyze_role_gate(&[]);
    assert!(empty.feasible);
    assert_eq!(empty.assignment_count, 1);
    assert!(empty.definitely_filled.is_empty());
    assert_eq!(role_order(RoleFilter::Support), 4);
    assert_eq!(role_order(RoleFilter::All), 5);
}

#[test]
fn weights_validate_their_totals() {
    let settings = DraftScoreWeights::default();
    assert!(settings.validate().is_ok());
    let mut zero = DraftScoreWeights::default();
    zero.pick_op = 0;
    zero.pick_matchup = 0;
    zero.pick_synergy = 0;
    zero.pick_composition = 0;
    zero.pick_denial = 0;
    assert!(zero.validate().is_err());
}
