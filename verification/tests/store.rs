use monitor::auth::{valid_credential, verify_password};
use monitor::model::{AppSettings, LatencyTargets, SiteSettings};
use monitor::store::{
    assemble_settings, cores_from_sql, from_sql_u64, keep_retrying, needs_migration,
    new_admin_secret, prune_due, MAX_BATCH,
    next_latency_revision, normalize_node_name, plan_history, prepare_node, prune_cutoffs,
    random_secret, rotation_token, to_sql_u64, token_hash, validate_id, StoreError,
    RETENTION_SECS,
};

#[test]
fn token_has_node_prefix_and_valid_hash() {
    let node = prepare_node("hk-1", "Hong Kong").unwrap();
    assert!(node.token.starts_with("hk-1."));
    assert_eq!(node.name, "Hong Kong");
    assert_eq!(node.token_hash, token_hash(&node.token));
}

#[test]
fn node_identifiers_and_names_are_checked_in_order() {
    assert_eq!(validate_id("a-Z_9"), Ok(()));
    assert_eq!(validate_id(""), Err(StoreError::InvalidId));
    assert_eq!(validate_id("a b"), Err(StoreError::InvalidId));
    assert_eq!(validate_id("节点"), Err(StoreError::InvalidId));
    assert_eq!(validate_id(&"a".repeat(64)), Ok(()));
    assert_eq!(validate_id(&"a".repeat(65)), Err(StoreError::InvalidId));
    assert_eq!(normalize_node_name("  Tokyo \n"), Ok("Tokyo".to_owned()));
    assert_eq!(normalize_node_name("   "), Err(StoreError::InvalidName));
    assert_eq!(normalize_node_name(&"名".repeat(80)), Ok("名".repeat(80)));
    assert_eq!(normalize_node_name(&"名".repeat(81)), Err(StoreError::InvalidName));
    assert!(matches!(prepare_node("bad id", ""), Err(StoreError::InvalidId)));
    assert!(matches!(prepare_node("ok", " "), Err(StoreError::InvalidName)));
}

#[test]
fn keys_are_random_and_hash_to_their_digest() {
    let first = prepare_node("n", "Node").unwrap();
    let second = prepare_node("n", "Node").unwrap();
    assert_ne!(first.token, second.token);
    assert_eq!(first.token.len(), "n.".len() + 43);
    let (token, hash) = rotation_token("n").unwrap();
    assert!(token.starts_with("n."));
    assert_eq!(hash, token_hash(&token));
    assert_ne!(token, first.token);
    assert_eq!(rotation_token("no/slash"), Err(StoreError::InvalidId));
}

#[test]
fn token_digest_is_sha256() {
    let digest = token_hash("abc");
    assert_eq!(digest.len(), 32);
    assert_eq!(&digest[..4], &[0xba_u8, 0x78, 0x16, 0xbf]);
    assert_ne!(token_hash("abc"), token_hash("abd"));
}

#[test]
fn secrets_are_url_safe_and_fresh() {
    let a = random_secret(24).unwrap();
    let b = random_secret(24).unwrap();
    assert_eq!(a.len(), 32);
    assert_ne!(a, b);
    assert!(a
        .bytes()
        .all(|c| c.is_ascii_alphanumeric() || c == b'-' || c == b'_'));
    assert_eq!(random_secret(32).unwrap().len(), 43);
}

#[test]
fn administrator_secret_verifies_against_its_credential() {
    let (password, credential) = new_admin_secret().unwrap();
    assert_eq!(password.len(), 32);
    assert!(credential.starts_with("$argon2id$v=19$m=19456,t=2,p=1$"));
    assert!(valid_credential(&credential));
    assert!(verify_password(&credential, &password));
    assert!(!verify_password(&credential, "something else entirely"));
}

#[test]
fn counters_convert_to_sql_integers_and_back() {
    assert_eq!(to_sql_u64(5), 5);
    assert_eq!(to_sql_u64(u64::MAX), i64::MAX);
    assert_eq!(from_sql_u64(-3), 0);
    assert_eq!(from_sql_u64(i64::MAX), i64::MAX as u64);
    for value in [0, 1, 1234, i64::MAX as u64] {
        assert_eq!(from_sql_u64(to_sql_u64(value)), value);
    }
    assert_eq!(cores_from_sql(-1), 0);
    assert_eq!(cores_from_sql(8), 8);
    assert_eq!(cores_from_sql((1_i64 << 32) + 3), 3);
}

#[test]
fn schema_versions_migrate_forward_only() {
    assert_eq!(needs_migration(0), Ok(true));
    assert_eq!(needs_migration(1), Ok(true));
    assert_eq!(needs_migration(2), Ok(false));
    assert_eq!(needs_migration(99), Err(StoreError::NewerSchema));
}

#[test]
fn stored_settings_fall_back_to_defaults() {
    let defaults = assemble_settings(None, None, None);
    assert_eq!(defaults.latency, LatencyTargets::default());
    assert_eq!(defaults.latency_revision, 0);
    assert_eq!(defaults.site.name, "Monitor");
    let targets = LatencyTargets {
        telecom: "example.com:443".into(),
        ..LatencyTargets::default()
    };
    let site = SiteSettings {
        name: "Mine".into(),
        description: String::new(),
        footer: "f".into(),
    };
    let stored = assemble_settings(Some(targets.clone()), Some(site), Some("7".into()));
    assert_eq!(stored.latency, targets);
    assert_eq!(stored.latency_revision, 7);
    assert_eq!(stored.site.name, "Mine");
    assert_eq!(
        assemble_settings(None, None, Some("x".into())).latency_revision,
        0
    );
    assert_eq!(
        assemble_settings(None, None, Some("18446744073709551616".into())).latency_revision,
        0
    );
}

#[test]
fn revision_advances_only_when_targets_change() {
    let current = AppSettings::default();
    let targets = LatencyTargets {
        telecom: "example.com:443".into(),
        ..LatencyTargets::default()
    };
    assert_eq!(next_latency_revision(&current, &targets), (1, true));
    let saved = AppSettings {
        latency: targets.clone(),
        latency_revision: 1,
        site: SiteSettings::default(),
    };
    assert_eq!(next_latency_revision(&saved, &targets), (1, false));
    assert_eq!(
        next_latency_revision(&current, &LatencyTargets::default()),
        (0, false)
    );
}

#[test]
fn history_ranges_are_limited_and_retention_is_thirty_days() {
    let now = 1_780_000_001;
    assert_eq!(plan_history("n", 721, false, now).unwrap_err(), StoreError::InvalidHours);
    assert_eq!(plan_history("n", 0, false, now).unwrap_err(), StoreError::InvalidHours);
    assert_eq!(plan_history("bad id", 1, false, now).unwrap_err(), StoreError::InvalidId);
    let (oldest_minute, oldest_at) = prune_cutoffs(now + 31 * 86_400);
    assert_eq!(oldest_at, now + 31 * 86_400 - RETENTION_SECS);
    assert!(now < oldest_at);
    assert!(now / 60 < oldest_minute);
    assert_eq!(oldest_minute, (now + 31 * 86_400).div_euclid(60) - 30 * 24 * 60);
}

#[test]
fn history_buckets_cover_the_range_in_at_most_1200_steps() {
    let now = 1_780_000_000;
    let short = plan_history("n", 1, true, now).unwrap();
    assert_eq!((short.from, short.to, short.step), (now - 3600, now, 30));
    assert_eq!((short.query_from, short.query_step, short.query_to), (now - 3600, 30, now));
    let long = plan_history("n", 720, true, now).unwrap();
    assert_eq!(long.step, 2160);
    let resources = plan_history("n", 6, false, now).unwrap();
    assert_eq!(resources.step, 60);
    assert_eq!(resources.query_step, 1);
    assert_eq!(resources.query_from, (now - 6 * 3600 + 59).div_euclid(60));
    assert_eq!(resources.query_to, (now + 59).div_euclid(60));
    for hours in [1, 2, 24, 100, 333, 720] {
        for latency in [false, true] {
            let plan = plan_history("n", hours, latency, now).unwrap();
            let quantum = if latency { 30 } else { 60 };
            assert_eq!(plan.step % quantum, 0);
            assert!(i64::from(hours) * 3600 <= 1200 * plan.step);
        }
    }
}

#[test]
fn the_writer_prunes_hourly_and_gives_up_only_when_stopping() {
    assert!(prune_due(3600, 0));
    assert!(!prune_due(3599, 0));
    assert!(prune_due(1_780_003_600, 1_780_000_000));
    assert!(keep_retrying(false, u128::MAX));
    assert!(keep_retrying(true, 19_999_999_999));
    assert!(!keep_retrying(true, 20_000_000_000));
    assert_eq!(MAX_BATCH, 512);
}

#[test]
fn targets_change_revision_without_mixing_old_history() {
    let current = AppSettings::default();
    let targets = LatencyTargets {
        telecom: "example.com:443".into(),
        ..LatencyTargets::default()
    };
    assert_eq!(next_latency_revision(&current, &targets), (1, true));
    let saved = AppSettings {
        latency: targets.clone(),
        latency_revision: 1,
        site: SiteSettings::default(),
    };
    assert_eq!(next_latency_revision(&saved, &targets), (1, false));
}

#[test]
fn migration_preserves_v1_state_and_rejects_future_schema() {
    assert_eq!(needs_migration(1), Ok(true));
    assert_eq!(from_sql_u64(to_sql_u64(99)), 99);
    assert_eq!(needs_migration(99), Err(StoreError::NewerSchema));
}

#[test]
fn history_has_hard_range_limits_and_prunes_both_tables() {
    let last_seen: i64 = 1_780_000_000;
    assert_eq!(
        plan_history("n", 721, false, last_seen + 1).map(|p| p.to),
        Err(StoreError::InvalidHours)
    );
    assert_eq!(
        plan_history("n", 0, false, last_seen + 1).map(|p| p.to),
        Err(StoreError::InvalidHours)
    );
    // Whether a node named "missing" exists is for the database to answer;
    // the plan itself is well formed.
    assert!(plan_history("missing", 1, false, last_seen + 1).is_ok());
    let (oldest_minute, oldest_latency) = prune_cutoffs(last_seen + 31 * 86400);
    assert!(last_seen / 60 < oldest_minute);
    assert!(last_seen < oldest_latency);
}
