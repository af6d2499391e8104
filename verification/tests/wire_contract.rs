use tfm2_atlas::wire::{
    active_catalog_payload, active_catalog_sync_acknowledged, applied_tier_count,
    game_positions_from_indices, hex_decode, hex_encode, parse_tier_sync_response,
    tier_status_line, tier_sync_response, TierTable,
};

#[test]
fn tier_sync_parser_supports_mod_champions_and_disabled_profiles() {
    let parsed = parse_tier_sync_response(
        "OK|TIER_SYNC|7|777974686d5f63617373696f70656961:S;62617365:NoTier\n",
    )
    .unwrap()
    .unwrap();
    assert_eq!(parsed.team_id, 7);
    assert_eq!(
        parsed.tiers,
        vec![
            ("wythm_cassiopeia".to_owned(), "S".to_owned()),
            ("base".to_owned(), "NoTier".to_owned()),
        ]
    );
    assert_eq!(parse_tier_sync_response("OK|TIER_SYNC||\n").unwrap(), None);
}

#[test]
fn champion_ids_round_trip_through_the_wire_encoding() {
    let champion_id = "wythm_cassiopeia_한글";
    assert_eq!(hex_decode(&hex_encode(champion_id)).unwrap(), champion_id);
    assert!(hex_decode("0xz1").is_err());
}

#[test]
fn active_catalog_waits_for_a_non_empty_career_database() {
    let positions: Vec<(String, Vec<String>)> = Vec::new();
    assert_eq!(active_catalog_payload(Vec::new(), &positions), None);

    let positions = vec![(
        "wythm_cassiopeia".to_owned(),
        vec!["Top".to_owned(), "Mid".to_owned()],
    )];
    assert_eq!(
        active_catalog_payload(
            vec!["wythm_cassiopeia".to_owned(), "wythm_cassiopeia".to_owned()],
            &positions,
        ),
        Some("777974686d5f63617373696f70656961,Top+Mid".to_owned())
    );
}

#[test]
fn active_catalog_delivery_requires_the_stable_bridge_ack() {
    assert!(active_catalog_sync_acknowledged("OK|SYNC_ACTIVE_CHAMPIONS\n"));
    assert!(!active_catalog_sync_acknowledged(""));
    assert!(!active_catalog_sync_acknowledged("ERR|INVALID_PAYLOAD\n"));
    assert!(!active_catalog_sync_acknowledged("OK|OTHER_COMMAND\n"));
}

#[test]
fn hex_encoding_writes_two_lowercase_digits_per_utf8_byte() {
    assert_eq!(hex_encode(""), "");
    assert_eq!(hex_encode("A z"), "41207a");
    assert_eq!(hex_encode("é"), "c3a9");
    assert_eq!(hex_decode("C3A9").unwrap(), "é");
    assert_eq!(hex_decode("").unwrap(), "");
    assert_eq!(hex_decode("abc").unwrap_err(), "INVALID_CHAMPION_ENCODING");
    assert_eq!(hex_decode("ff").unwrap_err(), "INVALID_CHAMPION_ENCODING");
    assert_eq!(hex_decode("g0").unwrap_err(), "INVALID_CHAMPION_ENCODING");
}

#[test]
fn acknowledgement_ignores_only_trailing_line_endings() {
    assert!(active_catalog_sync_acknowledged("OK|SYNC_ACTIVE_CHAMPIONS"));
    assert!(active_catalog_sync_acknowledged("OK|SYNC_ACTIVE_CHAMPIONS\r\n\n"));
    assert!(!active_catalog_sync_acknowledged(" OK|SYNC_ACTIVE_CHAMPIONS\n"));
    assert!(!active_catalog_sync_acknowledged("OK|SYNC_ACTIVE_CHAMPIONS \n"));
}

#[test]
fn game_positions_keep_the_first_two_distinct_known_indices() {
    assert_eq!(game_positions_from_indices(&[2, 0, 4]), vec!["Mid", "Top"]);
    assert_eq!(game_positions_from_indices(&[9, 3, 3, 1]), vec!["Bottom", "Jungle"]);
    assert_eq!(game_positions_from_indices(&[4]), vec!["Support"]);
    assert!(game_positions_from_indices(&[7, 8]).is_empty());
}

#[test]
fn active_catalog_sorts_ids_and_reads_positions_per_champion() {
    let positions = vec![
        ("b".to_owned(), vec!["Mid".to_owned()]),
        ("a".to_owned(), vec![]),
    ];
    assert_eq!(
        active_catalog_payload(
            vec!["b".to_owned(), "a".to_owned(), "c".to_owned(), "b".to_owned()],
            &positions,
        ),
        Some("61,;62,Mid;63,".to_owned())
    );
}

#[test]
fn tier_sync_response_is_read_back_by_the_client() {
    let mut tiers = TierTable::new();
    tiers.insert("zeta".to_owned(), "A".to_owned());
    tiers.insert("alpha".to_owned(), "NoTier".to_owned());
    tiers.insert("zeta".to_owned(), "S".to_owned());
    assert_eq!(tiers.len(), 2);
    let line = tier_sync_response(Some(42), &tiers);
    assert_eq!(line, "OK|TIER_SYNC|42|616c706861:NoTier;7a657461:S");
    let parsed = parse_tier_sync_response(&line).unwrap().unwrap();
    assert_eq!(parsed.team_id, 42);
    assert_eq!(
        parsed.tiers,
        vec![
            ("alpha".to_owned(), "NoTier".to_owned()),
            ("zeta".to_owned(), "S".to_owned()),
        ]
    );
    assert_eq!(tier_sync_response(None, &tiers), "OK|TIER_SYNC||");
    assert_eq!(tier_sync_response(Some(3), &TierTable::new()), "OK|TIER_SYNC|3|");
    assert_eq!(
        parse_tier_sync_response("OK|TIER_SYNC|3|").unwrap().unwrap().tiers,
        Vec::<(String, String)>::new()
    );
}

#[test]
fn tier_sync_parser_reports_each_refusal() {
    assert_eq!(
        parse_tier_sync_response("ERR|CAREER_NOT_CONNECTED").unwrap_err(),
        "INVALID_TIER_SYNC_RESPONSE"
    );
    assert_eq!(
        parse_tier_sync_response("OK|TIER_SYNC|x|").unwrap_err(),
        "INVALID_TIER_SYNC_TEAM"
    );
    assert_eq!(
        parse_tier_sync_response("OK|TIER_SYNC|1|6162").unwrap_err(),
        "INVALID_TIER_SYNC_ENTRY"
    );
    assert_eq!(
        parse_tier_sync_response("OK|TIER_SYNC|1|6162:Z").unwrap_err(),
        "INVALID_TIER_SYNC_TIER"
    );
    assert_eq!(
        parse_tier_sync_response("OK|TIER_SYNC|1|zz:S").unwrap_err(),
        "INVALID_CHAMPION_ENCODING"
    );
    assert_eq!(
        parse_tier_sync_response("  OK|TIER_SYNC|+5|;;6162:D;|extra ")
            .unwrap()
            .unwrap()
            .tiers,
        vec![("ab".to_owned(), "D".to_owned())]
    );
}

#[test]
fn only_tiers_the_game_knows_are_counted_as_applied() {
    let mut tiers = TierTable::new();
    tiers.insert("ahri".to_owned(), "S".to_owned());
    tiers.insert("zed".to_owned(), "NoTier".to_owned());
    tiers.insert("lux".to_owned(), "OP".to_owned());
    assert_eq!(applied_tier_count(&tiers), 2);
    assert_eq!(applied_tier_count(&TierTable::new()), 0);
}

#[test]
fn tier_status_lines_name_the_team_and_both_counts() {
    assert_eq!(tier_status_line(7, 2, 3), "SYNC_TIER_STATUS|7|2|3");
    assert_eq!(tier_status_line(0, 0, 0), "SYNC_TIER_STATUS|0|0|0");
}
