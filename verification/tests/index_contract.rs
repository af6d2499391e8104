use tfm2_atlas::index::{
    division_matches, fnv1a64, league_region_division, parse_role, region_from_solo_id,
    role_from_index, scope_matches, version_key, CachedMatchId, Division, MatchIndexCache,
    MatchKind, ReplayError, MATCH_INDEX_CACHE_CHUNK_SIZE, MATCH_INDEX_CACHE_VERSION,
    MATCH_INDEX_FORMULA_VERSION,
};
use tfm2_atlas::profile::{DivisionFilter, GameScope, RegionFilter, RoleFilter};

#[test]
fn fnv1a64_matches_the_reference_values() {
    assert_eq!(fnv1a64(b""), 0xcbf29ce484222325);
    assert_eq!(fnv1a64(b"a"), 0xaf63dc4c8601ec8c);
    assert_eq!(fnv1a64(b"foobar"), 0x85944171f73967e8);
}

#[test]
fn version_keys_order_patches_by_their_numbers() {
    assert_eq!(version_key("0.5.10"), vec![0, 5, 10]);
    assert_eq!(version_key("patch-12a3"), vec![12, 3]);
    assert_eq!(version_key("latest"), Vec::<u64>::new());
    assert_eq!(version_key("99999999999999999999.1"), vec![1]);
    assert!(version_key("0.5.10") > version_key("0.5.9"));
}

#[test]
fn replay_positions_and_regions_are_read_by_name_and_index() {
    assert_eq!(parse_role("BOT").unwrap(), RoleFilter::Bot);
    assert_eq!(parse_role("Bottom").unwrap(), RoleFilter::Bot);
    assert_eq!(parse_role("jungle").unwrap(), RoleFilter::Jungle);
    assert_eq!(
        parse_role("Carry").unwrap_err(),
        ReplayError::InvalidField("position:Carry".to_owned())
    );
    assert_eq!(role_from_index(4).unwrap(), RoleFilter::Support);
    assert_eq!(
        role_from_index(5).unwrap_err(),
        ReplayError::InvalidField("position index:5".to_owned())
    );
    assert_eq!(region_from_solo_id(5).unwrap(), RegionFilter::Jp);
    assert_eq!(
        region_from_solo_id(6).unwrap_err().message(),
        "invalid replay field: region_id:6"
    );
    assert_eq!(league_region_division(1).unwrap(), (RegionFilter::Cn, Division::First));
    assert_eq!(league_region_division(9).unwrap(), (RegionFilter::Na, Division::Second));
    assert_eq!(
        league_region_division(12).unwrap_err(),
        ReplayError::InvalidField("team.league_id:12".to_owned())
    );
}

#[test]
fn scopes_and_divisions_filter_matches() {
    assert!(scope_matches(GameScope::SoloAndTournament, MatchKind::Solo));
    assert!(scope_matches(GameScope::Tournament, MatchKind::Tournament));
    assert!(!scope_matches(GameScope::Solo, MatchKind::Tournament));
    assert!(division_matches(DivisionFilter::All, None));
    assert!(!division_matches(DivisionFilter::First, None));
    assert!(division_matches(DivisionFilter::Second, Some(Division::Second)));
    assert!(!division_matches(DivisionFilter::Second, Some(Division::First)));
}

fn sample_cache() -> (MatchIndexCache, Vec<Vec<u8>>) {
    let encoded = vec![b"[{\"id\":1}]".to_vec(), vec![b'x'; 3000], Vec::new()];
    let ids = vec![
        CachedMatchId { kind: MatchKind::Solo, id: 1 },
        CachedMatchId { kind: MatchKind::Tournament, id: 1 },
    ];
    (MatchIndexCache::from_encoded_chunks(&encoded, ids, 9, "0.5.5"), encoded)
}

#[test]
fn cache_chunks_are_compressed_checksummed_and_read_back() {
    let (cache, encoded) = sample_cache();
    assert_eq!(cache.manifest.cache_version, MATCH_INDEX_CACHE_VERSION);
    assert_eq!(cache.manifest.formula_version, MATCH_INDEX_FORMULA_VERSION);
    assert_eq!(cache.manifest.chunk_size, MATCH_INDEX_CACHE_CHUNK_SIZE);
    assert_eq!(cache.manifest.chunk_count, 3);
    assert_eq!(cache.manifest.match_count, 2);
    assert_eq!(cache.manifest.revision, 9);
    assert!(cache.chunks[1].len() < 3000);
    assert!(cache.check_header("0.5.5").is_ok());
    for (index, chunk) in encoded.iter().enumerate() {
        assert_eq!(cache.chunk_payload(index).unwrap(), *chunk);
        assert_eq!(cache.manifest.chunk_checksums[index], fnv1a64(&cache.chunks[index]));
    }
    assert!(cache
        .manifest
        .check_restored_ids(&[
            CachedMatchId { kind: MatchKind::Tournament, id: 1 },
            CachedMatchId { kind: MatchKind::Solo, id: 1 },
        ])
        .is_ok());
}

#[test]
fn cache_refuses_other_builds_counts_checksums_and_ids() {
    let (cache, _) = sample_cache();
    assert_eq!(
        cache.check_header("0.5.6").unwrap_err(),
        ReplayError::Cache("cache version does not match this game build".to_owned())
    );
    let mut formula = cache.clone();
    formula.manifest.formula_version = "older".to_owned();
    assert!(formula.check_header("0.5.5").is_err());
    let mut missing = cache.clone();
    missing.chunks.pop();
    assert_eq!(
        missing.check_header("0.5.5").unwrap_err().message(),
        "invalid analytics index cache: cache manifest does not match its chunks"
    );
    let mut corrupt = cache.clone();
    corrupt.chunks[0][5] ^= 0xff;
    assert_eq!(
        corrupt.chunk_payload(0).unwrap_err(),
        ReplayError::Cache("cache chunk 0 checksum mismatch".to_owned())
    );
    let mut broken = cache.clone();
    broken.chunks[2] = vec![1, 2];
    broken.manifest.chunk_checksums[2] = fnv1a64(&broken.chunks[2]);
    match broken.chunk_payload(2).unwrap_err() {
        ReplayError::Cache(reason) => assert!(reason.starts_with("cache chunk 2: ")),
        other => panic!("unexpected error {other:?}"),
    }
    assert_eq!(
        cache
            .manifest
            .check_restored_ids(&[CachedMatchId { kind: MatchKind::Solo, id: 1 }])
            .unwrap_err(),
        ReplayError::Cache("cache match id manifest is inconsistent".to_owned())
    );
    assert!(cache
        .manifest
        .check_restored_ids(&[
            CachedMatchId { kind: MatchKind::Solo, id: 1 },
            CachedMatchId { kind: MatchKind::Solo, id: 2 },
        ])
        .is_err());
}
