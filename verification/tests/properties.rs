use dd_registry_cw::contract::instantiate;
use dd_registry_cw::decimal::{mul_floor, FixedDec, FIXED_SCALE};
use dd_registry_cw::error::ContractError;
use dd_registry_cw::msg::{ExecuteMsg, InstantiateMsg, QueryAnswer, QueryMsg, RewardAllocation};
use dd_registry_cw::state::{
    PointsReason, PointsRules, Registry, SystemConfig, UserLevel,
};

fn config_with(enabled: bool, paused: bool) -> SystemConfig {
    SystemConfig {
        enabled,
        max_referral_depth: 3,
        referral_cooldown: 3600,
        max_daily_referrals: 10,
        points_decay_period: 30,
        points_decay_rate: FixedDec::from_atomics(10_000_000_000_000_000),
        min_withdrawal_amount: 1000,
        admin: "admin".to_string(),
        emergency_paused: paused,
    }
}

fn rules_basic() -> PointsRules {
    PointsRules {
        direct_referral_rate: FixedDec::from_atomics(500_000_000_000_000_000), // 0.5
        level_2_rate: FixedDec::from_atomics(200_000_000_000_000_000),         // 0.2
        level_3_rate: FixedDec::from_atomics(0),                               // unset
        base_points: 100,
        level_multipliers: Vec::new(),
        activity_rules: Vec::new(),
    }
}

fn fresh() -> Registry {
    instantiate(InstantiateMsg {
        admin: "admin".to_string(),
        config: config_with(true, false),
        points_rules: rules_basic(),
    })
}

fn register(reg: &mut Registry, who: &str, referrer: Option<&str>) {
    reg.execute(
        who,
        10,
        ExecuteMsg::Register { referrer: referrer.map(|s| s.to_string()) },
    )
    .unwrap();
}

fn points_of(reg: &Registry, who: &str) -> u128 {
    match reg.query(QueryMsg::GetUserPoints { user: who.to_string() }).unwrap() {
        QueryAnswer::UserPoints(resp) => resp.points,
        _ => panic!("unexpected answer"),
    }
}

fn allocate(reg: &mut Registry, who: &str, points: u128) {
    reg.execute(
        "admin",
        20,
        ExecuteMsg::AllocateRewards {
            user: who.to_string(),
            points,
            reason: PointsReason::ActivityBonus,
            related_user: None,
            event_id: None,
        },
    )
    .unwrap();
}

// Fixed-point arithmetic: exact truncating results.
#[test]
fn mul_floor_exact_values() {
    let half = FixedDec::from_atomics(500_000_000_000_000_000);
    assert_eq!(mul_floor(100, half), Some(50));
    let fifth = FixedDec::from_atomics(200_000_000_000_000_000);
    assert_eq!(mul_floor(100, fifth), Some(20));
    // truncation toward zero, never rounding up
    assert_eq!(mul_floor(3, half), Some(1));
    assert_eq!(mul_floor(1, FixedDec::from_atomics(999_999_999_999_999_999)), Some(0));
    assert_eq!(mul_floor(7, FixedDec { atomics: FIXED_SCALE }), Some(7));
    // a result beyond the balance range is refused, not wrapped
    assert_eq!(mul_floor(u128::MAX, FixedDec::from_atomics(2 * FIXED_SCALE)), None);
}

#[test]
fn tier_classifier_boundaries() {
    assert_eq!(UserLevel::from_referral_count(0), UserLevel::Bronze);
    assert_eq!(UserLevel::from_referral_count(9), UserLevel::Bronze);
    assert_eq!(UserLevel::from_referral_count(10), UserLevel::Silver);
    assert_eq!(UserLevel::from_referral_count(49), UserLevel::Silver);
    assert_eq!(UserLevel::from_referral_count(50), UserLevel::Gold);
    assert_eq!(UserLevel::from_referral_count(99), UserLevel::Gold);
    assert_eq!(UserLevel::from_referral_count(100), UserLevel::Platinum);
    assert_eq!(UserLevel::from_referral_count(u32::MAX), UserLevel::Platinum);
}

#[test]
fn tier_multiplier_defaults() {
    assert_eq!(UserLevel::Bronze.multiplier().atomics, 1_000_000_000_000_000_000);
    assert_eq!(UserLevel::Silver.multiplier().atomics, 1_200_000_000_000_000_000);
    assert_eq!(UserLevel::Gold.multiplier().atomics, 1_500_000_000_000_000_000);
    assert_eq!(UserLevel::Platinum.multiplier().atomics, 2_000_000_000_000_000_000);
}

// Cascade: rate 0.5 to the first parent, 0.2 to the second, nothing beyond
// configured levels.
#[test]
fn cascade_two_levels_bronze() {
    let mut reg = fresh();
    register(&mut reg, "parent2", None);
    register(&mut reg, "parent1", Some("parent2"));
    register(&mut reg, "referee", Some("parent1"));
    reg.allocate_multi_level_rewards("referee", 100, PointsReason::ReferralReward, None, 30)
        .unwrap();
    assert_eq!(points_of(&reg, "parent1"), 50);
    assert_eq!(points_of(&reg, "parent2"), 20);
    assert_eq!(points_of(&reg, "referee"), 0);
}

#[test]
fn cascade_stops_at_chain_end_and_depth() {
    let mut reg = fresh();
    register(&mut reg, "d", None);
    register(&mut reg, "c", Some("d"));
    register(&mut reg, "b", Some("c"));
    register(&mut reg, "a", Some("b"));
    // level 3 rate is zero in these rules: "d" gets nothing even though it is
    // within the depth cap.
    reg.allocate_multi_level_rewards("a", 100, PointsReason::ReferralReward, None, 30).unwrap();
    assert_eq!(points_of(&reg, "b"), 50);
    assert_eq!(points_of(&reg, "c"), 20);
    assert_eq!(points_of(&reg, "d"), 0);
}

#[test]
fn cascade_applies_tier_multiplier() {
    let mut reg = instantiate(InstantiateMsg {
        admin: "admin".to_string(),
        config: config_with(true, false),
        points_rules: PointsRules {
            level_multipliers: vec![(
                UserLevel::Bronze,
                FixedDec::from_atomics(2 * FIXED_SCALE),
            )],
            ..rules_basic()
        },
    });
    register(&mut reg, "parent", None);
    register(&mut reg, "child", Some("parent"));
    reg.allocate_multi_level_rewards("child", 100, PointsReason::ReferralReward, None, 30)
        .unwrap();
    // floor(100 * 0.5) = 50, then floor(50 * 2.0) = 100
    assert_eq!(points_of(&reg, "parent"), 100);
}

// Registering "bob" under "alice", then "alice" under "bob", closes a cycle
// and mutates nothing.
#[test]
fn circular_referral_reported_and_harmless() {
    let mut reg = fresh();
    register(&mut reg, "alice", None);
    register(&mut reg, "bob", Some("alice"));
    let before_users = match reg.query(QueryMsg::GetLevelStats {}).unwrap() {
        QueryAnswer::LevelStats(s) => s.total_users,
        _ => panic!("unexpected answer"),
    };
    let res = reg.execute(
        "alice",
        11,
        ExecuteMsg::Register { referrer: Some("bob".to_string()) },
    );
    match res {
        Err(ContractError::CircularReferral { referrer, referee }) => {
            assert_eq!(referrer, "bob");
            assert_eq!(referee, "alice");
        },
        other => panic!("expected a circular-referral error, got {:?}", other),
    }
    let after_users = match reg.query(QueryMsg::GetLevelStats {}).unwrap() {
        QueryAnswer::LevelStats(s) => s.total_users,
        _ => panic!("unexpected answer"),
    };
    assert_eq!(before_users, after_users);
    // bob still points at alice, alice still has her one referral
    match reg.query(QueryMsg::GetReferrer { user: "bob".to_string() }).unwrap() {
        QueryAnswer::Referrer(resp) => assert_eq!(resp.referrer, Some("alice".to_string())),
        _ => panic!("unexpected answer"),
    }
}

// Chain A <- B <- C: the chain of C up to depth 2 is [B, A].
#[test]
fn referral_chain_nearest_first() {
    let mut reg = fresh();
    register(&mut reg, "a", None);
    register(&mut reg, "b", Some("a"));
    register(&mut reg, "c", Some("b"));
    match reg
        .query(QueryMsg::GetReferralChain { user: "c".to_string(), max_depth: Some(2) })
        .unwrap()
    {
        QueryAnswer::ReferralChain(resp) => {
            assert_eq!(resp.depth, 2);
            assert_eq!(resp.chain.len(), 2);
            assert_eq!(resp.chain[0].user, "b");
            assert_eq!(resp.chain[0].level, 1);
            assert_eq!(resp.chain[1].user, "a");
            assert_eq!(resp.chain[1].level, 2);
        },
        _ => panic!("unexpected answer"),
    }
    // and the direct engine call agrees
    let ids = reg.get_referral_chain("c", Some(2));
    assert_eq!(ids, vec!["b".to_string(), "a".to_string()]);
}

// Pausing blocks registration with SystemPaused; unpausing restores it.
#[test]
fn emergency_pause_gates_registration() {
    let mut reg = fresh();
    reg.execute("admin", 5, ExecuteMsg::EmergencyPause { paused: true }).unwrap();
    let res = reg.execute("carol", 6, ExecuteMsg::Register { referrer: None });
    assert!(matches!(res, Err(ContractError::SystemPaused)));
    reg.execute("admin", 7, ExecuteMsg::EmergencyPause { paused: false }).unwrap();
    let res = reg.execute("carol", 8, ExecuteMsg::Register { referrer: None });
    assert!(res.is_ok());
}

// withdraw fails with InsufficientPoints exactly when amount > balance, and
// a failed withdrawal changes neither balance nor history.
#[test]
fn withdraw_insufficient_iff_over_balance() {
    let mut reg = fresh();
    register(&mut reg, "w", None);
    allocate(&mut reg, "w", 70);
    let res = reg.execute("w", 21, ExecuteMsg::WithdrawPoints { amount: 71 });
    match res {
        Err(ContractError::InsufficientPoints { required, available }) => {
            assert_eq!(required, 71);
            assert_eq!(available, 70);
        },
        other => panic!("expected insufficient points, got {:?}", other),
    }
    assert_eq!(points_of(&reg, "w"), 70);
    let history_len = match reg
        .query(QueryMsg::GetPointsHistory { user: "w".to_string(), limit: None, start_after: None })
        .unwrap()
    {
        QueryAnswer::PointsHistory(resp) => resp.total,
        _ => panic!("unexpected answer"),
    };
    assert_eq!(history_len, 1);
    // the boundary case succeeds
    let res = reg.execute("w", 22, ExecuteMsg::WithdrawPoints { amount: 70 });
    assert!(res.is_ok());
    assert_eq!(points_of(&reg, "w"), 0);
}

// A withdrawal appends a negative manual adjustment tagged "withdrawal".
#[test]
fn withdraw_appends_negative_record() {
    let mut reg = fresh();
    register(&mut reg, "w", None);
    allocate(&mut reg, "w", 50);
    reg.execute("w", 23, ExecuteMsg::WithdrawPoints { amount: 30 }).unwrap();
    match reg
        .query(QueryMsg::GetPointsHistory { user: "w".to_string(), limit: None, start_after: None })
        .unwrap()
    {
        QueryAnswer::PointsHistory(resp) => {
            assert_eq!(resp.total, 2);
            assert_eq!(resp.records[1].points_change, -30);
            assert!(matches!(resp.records[1].reason, PointsReason::ManualAdjustment));
            assert_eq!(resp.records[1].event_id, Some("withdrawal".to_string()));
        },
        _ => panic!("unexpected answer"),
    }
}

// The leaderboard is sorted by strictly descending balance with distinct
// sequential ranks; equal balances are ordered by id.
#[test]
fn leaderboard_sorted_with_sequential_ranks() {
    let mut reg = fresh();
    register(&mut reg, "p", None);
    register(&mut reg, "q", None);
    register(&mut reg, "r", None);
    allocate(&mut reg, "q", 300);
    allocate(&mut reg, "p", 100);
    allocate(&mut reg, "r", 100);
    match reg.query(QueryMsg::GetPointsLeaderboard { limit: None, start_after: None }).unwrap() {
        QueryAnswer::Leaderboard(resp) => {
            assert_eq!(resp.total, 3);
            let rows: Vec<(String, u128, u32)> = resp
                .entries
                .iter()
                .map(|e| (e.user.clone(), e.points, e.rank))
                .collect();
            assert_eq!(
                rows,
                vec![
                    ("q".to_string(), 300, 1),
                    ("p".to_string(), 100, 2),
                    ("r".to_string(), 100, 3),
                ]
            );
        },
        _ => panic!("unexpected answer"),
    }
    let top = reg.get_leaderboard(Some(2), None);
    assert_eq!(top.len(), 2);
    assert_eq!(top[0], ("q".to_string(), 300, 1));
    assert_eq!(top[1], ("p".to_string(), 100, 2));
}

// rank never decreases as another user's balance increases past this one's.
#[test]
fn rank_monotone_under_overtaking() {
    let mut reg = fresh();
    register(&mut reg, "u", None);
    register(&mut reg, "v", None);
    allocate(&mut reg, "u", 100);
    allocate(&mut reg, "v", 50);
    let rank_before = match reg.query(QueryMsg::GetUserPoints { user: "u".to_string() }).unwrap() {
        QueryAnswer::UserPoints(resp) => resp.rank.unwrap(),
        _ => panic!("unexpected answer"),
    };
    assert_eq!(rank_before, 1);
    // v overtakes u
    allocate(&mut reg, "v", 100);
    let rank_after = match reg.query(QueryMsg::GetUserPoints { user: "u".to_string() }).unwrap() {
        QueryAnswer::UserPoints(resp) => resp.rank.unwrap(),
        _ => panic!("unexpected answer"),
    };
    assert!(rank_after >= rank_before);
    assert_eq!(rank_after, 2);
}

// Ledger consistency observed through the API: the balance equals the sum
// of the history deltas.
#[test]
fn balance_equals_history_sum() {
    let mut reg = fresh();
    register(&mut reg, "l", None);
    allocate(&mut reg, "l", 120);
    allocate(&mut reg, "l", 30);
    reg.execute("l", 24, ExecuteMsg::WithdrawPoints { amount: 50 }).unwrap();
    let (points, deltas): (u128, i128) = match (
        reg.query(QueryMsg::GetUserPoints { user: "l".to_string() }).unwrap(),
        reg.query(QueryMsg::GetPointsHistory {
            user: "l".to_string(),
            limit: None,
            start_after: None,
        })
        .unwrap(),
    ) {
        (QueryAnswer::UserPoints(p), QueryAnswer::PointsHistory(h)) => {
            (p.points, h.records.iter().map(|r| r.points_change).sum())
        },
        _ => panic!("unexpected answers"),
    };
    assert_eq!(points as i128, deltas);
    assert_eq!(points, 100);
}

#[test]
fn unauthorized_allocation_rejected() {
    let mut reg = fresh();
    register(&mut reg, "x", None);
    let res = reg.execute(
        "mallory",
        25,
        ExecuteMsg::AllocateRewards {
            user: "x".to_string(),
            points: 10,
            reason: PointsReason::ActivityBonus,
            related_user: None,
            event_id: None,
        },
    );
    assert!(matches!(res, Err(ContractError::Unauthorized { .. })));
    assert_eq!(points_of(&reg, "x"), 0);
}

#[test]
fn allocation_to_unknown_user_rejected() {
    let mut reg = fresh();
    let res = reg.execute(
        "admin",
        26,
        ExecuteMsg::AllocateRewards {
            user: "ghost".to_string(),
            points: 10,
            reason: PointsReason::ActivityBonus,
            related_user: None,
            event_id: None,
        },
    );
    assert!(matches!(res, Err(ContractError::UserNotRegistered { .. })));
}

#[test]
fn duplicate_registration_rejected() {
    let mut reg = fresh();
    register(&mut reg, "dup", None);
    let res = reg.execute("dup", 27, ExecuteMsg::Register { referrer: None });
    match res {
        Err(ContractError::UserAlreadyRegistered { user }) => assert_eq!(user, "dup"),
        other => panic!("expected duplicate registration error, got {:?}", other),
    }
}

#[test]
fn unknown_referrer_rejected() {
    let mut reg = fresh();
    let res = reg.execute(
        "newbie",
        28,
        ExecuteMsg::Register { referrer: Some("nobody".to_string()) },
    );
    match res {
        Err(ContractError::InvalidReferrer { referrer }) => assert_eq!(referrer, "nobody"),
        other => panic!("expected invalid referrer error, got {:?}", other),
    }
    assert!(!reg.user_exists("newbie"));
}

#[test]
fn reentrancy_lock_detected() {
    let mut reg = fresh();
    assert!(reg.check_reentrancy_lock().is_ok());
    reg.set_reentrancy_lock(true).unwrap();
    assert!(matches!(reg.check_reentrancy_lock(), Err(ContractError::ReentrancyDetected)));
    reg.set_reentrancy_lock(false).unwrap();
    assert!(reg.check_reentrancy_lock().is_ok());
}

// The batch commits nothing when any entry names an unknown user.
#[test]
fn batch_aborts_whole_on_first_failure() {
    let mut reg = fresh();
    register(&mut reg, "one", None);
    register(&mut reg, "two", None);
    let entry = |user: &str, points: u128| RewardAllocation {
        user: user.to_string(),
        points,
        reason: PointsReason::ActivityBonus,
        related_user: None,
        event_id: None,
    };
    let res = reg.execute(
        "admin",
        29,
        ExecuteMsg::BatchAllocateRewards {
            rewards: vec![entry("one", 10), entry("missing", 5), entry("two", 20)],
        },
    );
    match res {
        Err(ContractError::UserNotRegistered { user }) => assert_eq!(user, "missing"),
        other => panic!("expected a not-registered error, got {:?}", other),
    }
    assert_eq!(points_of(&reg, "one"), 0);
    assert_eq!(points_of(&reg, "two"), 0);
    // a clean batch applies every entry, repeats included
    reg.execute(
        "admin",
        30,
        ExecuteMsg::BatchAllocateRewards {
            rewards: vec![entry("one", 10), entry("two", 20), entry("one", 5)],
        },
    )
    .unwrap();
    assert_eq!(points_of(&reg, "one"), 15);
    assert_eq!(points_of(&reg, "two"), 20);
}

#[test]
fn tier_recomputed_from_referral_count() {
    let mut reg = fresh();
    register(&mut reg, "hub", None);
    for i in 0..10 {
        register(&mut reg, &format!("spoke{}", i), Some("hub"));
    }
    // the tier is recomputed when points flow
    allocate(&mut reg, "hub", 1);
    match reg.query(QueryMsg::GetUserPoints { user: "hub".to_string() }).unwrap() {
        QueryAnswer::UserPoints(resp) => assert_eq!(resp.level, UserLevel::Silver),
        _ => panic!("unexpected answer"),
    }
    match reg.query(QueryMsg::GetLevelStats {}).unwrap() {
        QueryAnswer::LevelStats(s) => {
            assert_eq!(s.silver, 1);
            assert_eq!(s.bronze, 10);
            assert_eq!(s.total_users, 11);
        },
        _ => panic!("unexpected answer"),
    }
}

#[test]
fn direct_referrals_paginated() {
    let mut reg = fresh();
    register(&mut reg, "root", None);
    register(&mut reg, "m1", Some("root"));
    register(&mut reg, "m2", Some("root"));
    register(&mut reg, "m3", Some("root"));
    match reg
        .query(QueryMsg::GetDirectReferrals {
            user: "root".to_string(),
            limit: Some(2),
            start_after: None,
        })
        .unwrap()
    {
        QueryAnswer::DirectReferrals(resp) => {
            assert_eq!(resp.total, 3);
            assert_eq!(resp.referrals, vec!["m1".to_string(), "m2".to_string()]);
        },
        _ => panic!("unexpected answer"),
    }
    match reg
        .query(QueryMsg::GetDirectReferrals {
            user: "root".to_string(),
            limit: None,
            start_after: Some("m1".to_string()),
        })
        .unwrap()
    {
        QueryAnswer::DirectReferrals(resp) => {
            assert_eq!(resp.total, 2);
            assert_eq!(resp.referrals, vec!["m2".to_string(), "m3".to_string()]);
        },
        _ => panic!("unexpected answer"),
    }
}

#[test]
fn history_paginated_by_timestamp_cursor() {
    let mut reg = fresh();
    register(&mut reg, "h", None);
    for ts in [100u64, 200, 300] {
        reg.execute(
            "admin",
            ts,
            ExecuteMsg::AllocateRewards {
                user: "h".to_string(),
                points: 1,
                reason: PointsReason::ActivityBonus,
                related_user: None,
                event_id: None,
            },
        )
        .unwrap();
    }
    match reg
        .query(QueryMsg::GetPointsHistory {
            user: "h".to_string(),
            limit: None,
            start_after: Some(100),
        })
        .unwrap()
    {
        QueryAnswer::PointsHistory(resp) => {
            assert_eq!(resp.total, 2);
            assert_eq!(resp.records[0].timestamp, 200);
            assert_eq!(resp.records[1].timestamp, 300);
        },
        _ => panic!("unexpected answer"),
    }
}

#[test]
fn validate_referral_reports_reason() {
    let mut reg = fresh();
    register(&mut reg, "alice", None);
    register(&mut reg, "bob", Some("alice"));
    let validate = |reg: &Registry, referrer: &str, referee: &str| match reg
        .query(QueryMsg::ValidateReferral {
            referrer: referrer.to_string(),
            referee: referee.to_string(),
        })
        .unwrap()
    {
        QueryAnswer::Validation(v) => v,
        _ => panic!("unexpected answer"),
    };
    let ok = validate(&reg, "alice", "carol");
    assert!(ok.is_valid);
    assert_eq!(ok.reason, None);
    let missing = validate(&reg, "nobody", "carol");
    assert!(!missing.is_valid);
    assert_eq!(missing.reason, Some("Referrer not registered".to_string()));
    let taken = validate(&reg, "alice", "bob");
    assert!(!taken.is_valid);
    assert_eq!(taken.reason, Some("Referee already registered".to_string()));
    // a cycle-closing referee is by necessity already registered, so the
    // duplicate check reports it first
    let circular = validate(&reg, "bob", "alice");
    assert!(!circular.is_valid);
    assert_eq!(circular.reason, Some("Referee already registered".to_string()));
}

#[test]
fn admin_updates_config_and_rules() {
    let mut reg = fresh();
    let res = reg.execute(
        "mallory",
        31,
        ExecuteMsg::UpdateConfig { config: config_with(true, false) },
    );
    assert!(matches!(res, Err(ContractError::Unauthorized { .. })));
    let mut new_config = config_with(true, false);
    new_config.max_referral_depth = 2;
    reg.execute("admin", 32, ExecuteMsg::UpdateConfig { config: new_config }).unwrap();
    match reg.query(QueryMsg::GetConfig {}).unwrap() {
        QueryAnswer::Config(resp) => assert_eq!(resp.config.max_referral_depth, 2),
        _ => panic!("unexpected answer"),
    }
    let mut new_rules = rules_basic();
    new_rules.base_points = 500;
    reg.execute("admin", 33, ExecuteMsg::UpdatePointsRules { rules: new_rules }).unwrap();
    match reg.query(QueryMsg::GetPointsRules {}).unwrap() {
        QueryAnswer::PointsRules(resp) => assert_eq!(resp.rules.base_points, 500),
        _ => panic!("unexpected answer"),
    }
}

#[test]
fn record_maintenance_operations() {
    let mut reg = fresh();
    register(&mut reg, "alice", None);
    // activity timestamp
    reg.update_user_activity("alice", 99).unwrap();
    match reg.query(QueryMsg::GetUserInfo { user: "alice".to_string() }).unwrap() {
        QueryAnswer::UserInfo(resp) => assert_eq!(resp.user_info.last_active_at, 99),
        _ => panic!("unexpected answer"),
    }
    assert!(reg.update_user_activity("nobody", 99).is_err());
    // explicit tier recomputation
    let changed = reg.update_user_level("alice", 50).unwrap();
    assert!(changed);
    match reg.query(QueryMsg::GetUserInfo { user: "alice".to_string() }).unwrap() {
        QueryAnswer::UserInfo(resp) => assert_eq!(resp.user_info.user_level, UserLevel::Gold),
        _ => panic!("unexpected answer"),
    }
    let changed_again = reg.update_user_level("alice", 55).unwrap();
    assert!(!changed_again);
    // guard checks
    assert!(reg.check_admin_permission("admin").is_ok());
    assert!(matches!(
        reg.check_admin_permission("mallory"),
        Err(ContractError::Unauthorized { .. })
    ));
    assert!(reg.check_system_paused().is_ok());
    assert!(reg.check_cooldown("alice", "referral", 3600).is_ok());
    // referrer-side bookkeeping on its own
    reg.establish_referral_relation("alice", "future", 42).unwrap();
    match reg.query(QueryMsg::GetUserInfo { user: "alice".to_string() }).unwrap() {
        QueryAnswer::UserInfo(resp) => {
            assert_eq!(resp.user_info.direct_referrals, vec!["future".to_string()]);
            assert_eq!(resp.user_info.referral_stats.total_referrals, 1);
        },
        _ => panic!("unexpected answer"),
    }
    // a taken referee id is rejected by the validation
    assert!(matches!(
        reg.establish_referral_relation("alice", "alice", 43),
        Err(ContractError::UserAlreadyRegistered { .. })
    ));
}

#[test]
fn chain_query_uses_configured_depth_by_default() {
    let mut reg = fresh();
    register(&mut reg, "r4", None);
    register(&mut reg, "r3", Some("r4"));
    register(&mut reg, "r2", Some("r3"));
    register(&mut reg, "r1", Some("r2"));
    register(&mut reg, "leaf", Some("r1"));
    // the configured maximum depth is three
    let ids = reg.get_referral_chain("leaf", None);
    assert_eq!(ids, vec!["r1".to_string(), "r2".to_string(), "r3".to_string()]);
    // an unknown user has an empty chain
    assert!(reg.get_referral_chain("nobody", None).is_empty());
}

#[test]
fn registration_updates_referrer_bookkeeping() {
    let mut reg = fresh();
    register(&mut reg, "alice", None);
    register(&mut reg, "bob", Some("alice"));
    match reg.query(QueryMsg::GetUserInfo { user: "alice".to_string() }).unwrap() {
        QueryAnswer::UserInfo(resp) => {
            assert_eq!(resp.user_info.direct_referrals, vec!["bob".to_string()]);
            assert_eq!(resp.user_info.referral_stats.total_referrals, 1);
            assert_eq!(resp.user_info.referral_stats.active_referrals, 1);
            assert_eq!(resp.user_info.referral_stats.last_referral_time, Some(10));
        },
        _ => panic!("unexpected answer"),
    }
    match reg.query(QueryMsg::GetUserInfo { user: "bob".to_string() }).unwrap() {
        QueryAnswer::UserInfo(resp) => {
            assert_eq!(resp.user_info.recommender, Some("alice".to_string()));
            assert_eq!(resp.user_info.reward_points, 0);
            assert_eq!(resp.user_info.registered_at, 10);
        },
        _ => panic!("unexpected answer"),
    }
}
