use tfm2_atlas::locks::{validate_lock_header, validate_lock_keys, value_range, LockGroup};
use tfm2_atlas::profile::{
    DivisionFilter, GameScope, RegionFilter, RoleFilter, SampleMode, TierPreset, TierProfile,
};
use tfm2_atlas::protocol::{frame_body, frame_payload, FrameError, MAX_FRAME_BYTES};
use tfm2_atlas::tsv::{
    tier_tsv_verdict, tier_tsv_version, tsv_header_kind, tsv_lines_of, tsv_row_eligible,
    tier_writes, tsv_row_head, RecordPatchError, Tier, TierAssignment, TierTsvVerdict,
    TsvError,
};

#[test]
fn default_profile_matches_product_contract() {
    let profile = TierProfile::default();

    assert!(profile.enabled);
    assert_eq!(profile.scope, GameScope::SoloAndTournament);
    assert_eq!(profile.region, RegionFilter::All);
    assert_eq!(profile.division, DivisionFilter::All);
    assert_eq!(profile.role, RoleFilter::All);
    assert_eq!(profile.sample, SampleMode::Auto);
    assert_eq!(profile.preset, TierPreset::Classic);
    assert_eq!(profile.patch.as_deref(), Some("latest"));
    assert!(profile.validate().is_ok());
}

#[test]
fn division_filter_is_only_valid_for_tournament_scope() {
    let mut profile = TierProfile::default();
    profile.division = DivisionFilter::First;

    let error = profile.validate().unwrap_err();
    assert_eq!(error.code(), "division_requires_tournament");

    profile.scope = GameScope::Tournament;
    assert!(profile.validate().is_ok());
}

#[test]
fn profile_validation_rejects_zero_floors_and_blank_patches() {
    let mut profile = TierProfile::default();
    profile.sample = SampleMode::Minimum(0);
    assert_eq!(profile.validate().unwrap_err().code(), "invalid_sample_floor");
    profile.sample = SampleMode::Minimum(12);
    assert_eq!(profile.sample_floor(), 12);
    profile.patch = Some("  ".to_owned());
    assert_eq!(profile.validate().unwrap_err().code(), "invalid_patch");
    profile.patch = None;
    assert!(profile.validate().is_ok());
    assert_eq!(TierProfile::default().sample_floor(), 5);
}

#[test]
fn frames_carry_a_big_endian_length_and_read_back() {
    let payload = "{\"command\":\"GET_DASHBOARD\",\"한국어\":true}".as_bytes().to_vec();
    let frame = frame_payload(&payload).unwrap();
    assert_eq!(
        u32::from_be_bytes(frame[..4].try_into().unwrap()) as usize,
        frame.len() - 4
    );
    assert_eq!(frame_body(&frame).unwrap(), payload);

    let oversized = vec![0_u8; MAX_FRAME_BYTES + 5];
    assert!(matches!(frame_body(&oversized), Err(FrameError::TooLarge { .. })));
    assert!(matches!(
        frame_payload(&vec![b'x'; MAX_FRAME_BYTES + 1]),
        Err(FrameError::TooLarge { actual, maximum }) if actual == MAX_FRAME_BYTES + 1 && maximum == MAX_FRAME_BYTES
    ));
    assert!(matches!(frame_body(&[0, 0, 1]), Err(FrameError::MissingHeader)));
    assert!(matches!(
        frame_body(&[0, 0, 0, 2, 7]),
        Err(FrameError::LengthMismatch { declared: 2, actual: 1 })
    ));
    assert!(matches!(
        frame_body(&[2, 0, 0, 0]),
        Err(FrameError::TooLarge { actual: 33554432, .. })
    ));
    assert_eq!(frame_body(&[0, 0, 0, 0]).unwrap(), Vec::<u8>::new());
}

#[test]
fn tier_labels_read_back_in_any_case_and_with_aliases() {
    for tier in [Tier::Op, Tier::One, Tier::Two, Tier::Three, Tier::Four, Tier::NoTier] {
        assert_eq!(Tier::parse(tier.label()).unwrap(), tier);
    }
    assert_eq!(Tier::parse(" s ").unwrap(), Tier::Op);
    assert_eq!(Tier::parse("b").unwrap(), Tier::Two);
    assert_eq!(Tier::parse("no_tier").unwrap(), Tier::NoTier);
    assert_eq!(Tier::parse("NoTier").unwrap(), Tier::NoTier);
    assert_eq!(Tier::parse(" E ").unwrap_err(), "unknown tier:  E ");
    assert_eq!(Tier::Op.label(), "OP");
    assert_eq!(Tier::NoTier.label(), "-");
}

#[test]
fn tier_tsv_layout_checks_header_fields_duplicates_and_eligibility() {
    let lines = tsv_lines_of("champion_id\ttier\toverall\teligible\r\narcher\tA\t72.4\ttrue\n\n");
    assert_eq!(lines, vec!["champion_id\ttier\toverall\teligible", "archer\tA\t72.4\ttrue", ""]);
    assert_eq!(tsv_lines_of(""), Vec::<String>::new());
    assert!(tsv_header_kind(&lines[0]).unwrap());
    assert!(!tsv_header_kind("champion_id\ttier\toverall").unwrap());
    assert_eq!(tsv_header_kind("id\ttier").unwrap_err(), TsvError::UnsupportedHeader);

    let mut seen = Vec::new();
    let head = tsv_row_head(&lines[1], 2, true, &mut seen).unwrap().unwrap();
    assert_eq!(head.champion_id, "archer");
    assert_eq!(head.tier, Tier::One);
    assert_eq!(head.overall, "72.4");
    assert_eq!(head.eligible, "true");
    assert!(tsv_row_eligible(&head, true, 2).unwrap());
    assert!(tsv_row_head("   ", 3, true, &mut seen).unwrap().is_none());
    assert_eq!(
        tsv_row_head(" archer \t1\t\tfalse", 4, true, &mut seen).unwrap_err(),
        TsvError::InvalidRow { line: 4, reason: "duplicate champion_id: archer".to_owned() }
    );
    assert_eq!(
        tsv_row_head("knight\t1\t", 5, true, &mut seen).unwrap_err().message(),
        "invalid tier TSV row 5: expected 4 non-empty fields"
    );
    assert_eq!(
        tsv_row_head("paladin\tZ\t", 6, false, &mut seen).unwrap_err().message(),
        "invalid tier TSV row 6: unknown tier: Z"
    );
    let knight = tsv_row_head("knight\t-\t\tyes", 7, true, &mut seen).unwrap().unwrap();
    assert_eq!(
        tsv_row_eligible(&knight, true, 7).unwrap_err().message(),
        "invalid tier TSV row 7: eligible must be true or false"
    );
    let mage = tsv_row_head("mage\t-\t\ttrue", 8, true, &mut seen).unwrap().unwrap();
    assert_eq!(
        tsv_row_eligible(&mage, true, 8).unwrap_err().message(),
        "invalid tier TSV row 8: eligible and tier disagree"
    );
    let rogue = tsv_row_head("rogue\tNOTIER\t", 9, false, &mut seen).unwrap().unwrap();
    assert!(!tsv_row_eligible(&rogue, false, 9).unwrap());
}

#[test]
fn error_messages_follow_the_displayed_texts() {
    assert_eq!(TsvError::UnsupportedHeader.message(), "unsupported tier TSV header");
    assert_eq!(
        RecordPatchError::MissingPath { path: "id".to_owned() }.message(),
        "required JSON path is missing: id"
    );
    assert_eq!(
        RecordPatchError::TargetMismatch.message(),
        "target id does not match the record"
    );
}

#[test]
fn lock_headers_and_keys_follow_their_group() {
    assert!(validate_lock_header("Player 42", LockGroup::PlayerStats, 12).is_ok());
    assert_eq!(
        validate_lock_header("Player 42", LockGroup::PlayerStats, 11)
            .unwrap_err()
            .code(),
        "invalid_group_size"
    );
    assert_eq!(
        validate_lock_header("  ", LockGroup::StaffStats, 10).unwrap_err().code(),
        "missing_identity"
    );
    assert!(validate_lock_keys(
        LockGroup::ChampionMastery,
        &vec!["archer".to_owned(), "knight".to_owned()],
        2
    )
    .is_ok());
    assert_eq!(
        validate_lock_keys(LockGroup::ChampionMastery, &vec![" ".to_owned()], 1)
            .unwrap_err()
            .code(),
        "invalid_group_size"
    );
}

#[test]
fn profile_lock_values_have_key_specific_ranges() {
    assert_eq!(value_range(LockGroup::PlayerProfile, "age"), (16, 100));
    assert_eq!(value_range(LockGroup::StaffProfile, "age"), (16, 100));
    assert_eq!(value_range(LockGroup::PlayerProfile, "stat.language.3"), (0, 100));
    assert_eq!(value_range(LockGroup::PlayerProfile, "champion_proficiency.ahri"), (0, 100));
    assert_eq!(value_range(LockGroup::PlayerProfile, "management.stress"), (0, 100));
    assert_eq!(value_range(LockGroup::PlayerProfile, "stat.mental"), (1, 100));
    assert_eq!(value_range(LockGroup::StaffProfile, "language.1"), (0, 100));
    assert_eq!(value_range(LockGroup::StaffProfile, "stat.top"), (1, 100));
}

#[test]
fn tier_tsv_version_follows_the_first_header() {
    assert_eq!(tier_tsv_version("champion_id\ttier\toverall\teligible\r\nahri\tOP\t\ttrue\n"), 2);
    assert_eq!(tier_tsv_version("champion_id\ttier\toverall\nahri\tOP\t\n"), 1);
    assert_eq!(tier_tsv_version(""), 1);
    assert_eq!(tier_tsv_version("eligible"), 1);
}

#[test]
fn tier_tsv_verdict_checks_size_then_parse_then_rows() {
    let big = "x".repeat(4 * 1024 * 1024 + 1);
    assert_eq!(tier_tsv_verdict(&big, Some(1)), TierTsvVerdict::TooLarge);
    assert_eq!(TierTsvVerdict::TooLarge.error_code(), Some("tier_tsv_too_large"));
    let text = "champion_id\ttier\toverall\teligible\n";
    assert_eq!(tier_tsv_verdict(text, None), TierTsvVerdict::Invalid);
    assert_eq!(TierTsvVerdict::Invalid.error_code(), Some("invalid_tier_tsv"));
    assert_eq!(tier_tsv_verdict(text, Some(10_001)), TierTsvVerdict::TooManyRows);
    assert_eq!(TierTsvVerdict::TooManyRows.error_code(), Some("tier_tsv_too_many_rows"));
    let accepted = tier_tsv_verdict(text, Some(10_000));
    assert_eq!(accepted, TierTsvVerdict::Accepted { version: 2, row_count: 10_000 });
    assert_eq!(accepted.error_code(), None);
}

fn assignment(champion_id: &str, tier: Tier, eligible: bool) -> TierAssignment {
    TierAssignment { champion_id: champion_id.to_owned(), tier, eligible }
}

#[test]
fn tier_patch_maps_dashboard_tiers_and_explicitly_writes_no_tier() {
    let mut champion_tiers = vec![
        ("archer".to_owned(), "D".to_owned()),
        ("knight".to_owned(), "A".to_owned()),
        ("legacy".to_owned(), "B".to_owned()),
    ];
    let rows = vec![assignment("archer", Tier::Op, true), assignment("knight", Tier::NoTier, false)];

    for (champion_id, label) in tier_writes(&rows).unwrap() {
        let slot = champion_tiers.iter_mut().find(|(id, _)| *id == champion_id).unwrap();
        slot.1 = label.to_owned();
    }

    assert_eq!(champion_tiers[0].1, "S");
    assert_eq!(champion_tiers[1].1, "NoTier");
    assert_eq!(champion_tiers[2].1, "B");
}

#[test]
fn tier_writes_refuse_the_first_faulty_row() {
    let blank = vec![assignment("archer", Tier::One, true), assignment("  ", Tier::Two, true)];
    assert_eq!(
        tier_writes(&blank),
        Err(RecordPatchError::InvalidTierPolicy { reason: "champion_id is empty".to_owned() })
    );
    let disagree = vec![assignment("knight", Tier::NoTier, true), assignment("", Tier::Op, true)];
    assert_eq!(
        tier_writes(&disagree),
        Err(RecordPatchError::InvalidTierPolicy {
            reason: "eligible and tier disagree for knight".to_owned()
        })
    );
    let writes = tier_writes(&[assignment("mage", Tier::Four, true)]).unwrap();
    assert_eq!(writes, vec![("mage".to_owned(), "D")]);
}
