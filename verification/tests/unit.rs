use dd_registry_cw::contract::instantiate;
use dd_registry_cw::decimal::FixedDec;
use dd_registry_cw::msg::{ExecuteMsg, InstantiateMsg, QueryAnswer, QueryMsg};
use dd_registry_cw::state::{PointsReason, PointsRules, SystemConfig};

fn test_config() -> SystemConfig {
    SystemConfig {
        enabled: true,
        max_referral_depth: 3,
        referral_cooldown: 3600,
        max_daily_referrals: 10,
        points_decay_period: 30,
        points_decay_rate: FixedDec::from_atomics(10_000_000_000_000_000), // 0.01
        min_withdrawal_amount: 1000,
        admin: "admin".to_string(),
        emergency_paused: false,
    }
}

fn test_rules() -> PointsRules {
    PointsRules {
        direct_referral_rate: FixedDec::from_atomics(500_000_000_000_000_000), // 0.5
        level_2_rate: FixedDec::from_atomics(200_000_000_000_000_000),         // 0.2
        level_3_rate: FixedDec::from_atomics(100_000_000_000_000_000),         // 0.1
        base_points: 100,
        level_multipliers: Vec::new(),
        activity_rules: Vec::new(),
    }
}

fn init_msg() -> InstantiateMsg {
    InstantiateMsg { admin: "admin".to_string(), config: test_config(), points_rules: test_rules() }
}

#[test]
fn test_user_registration() {
    let mut reg = instantiate(init_msg());
    let res = reg.execute("user1", 1000, ExecuteMsg::Register { referrer: None });
    assert!(res.is_ok());
    assert!(reg.user_exists("user1"));
}

#[test]
fn test_referral_relation() {
    let mut reg = instantiate(init_msg());
    reg.execute("referrer", 1000, ExecuteMsg::Register { referrer: None }).unwrap();
    let res = reg.execute(
        "referee",
        1000,
        ExecuteMsg::Register { referrer: Some("referrer".to_string()) },
    );
    assert!(res.is_ok());
    match reg.query(QueryMsg::GetReferrer { user: "referee".to_string() }).unwrap() {
        QueryAnswer::Referrer(resp) => assert_eq!(resp.referrer, Some("referrer".to_string())),
        _ => panic!("unexpected answer"),
    }
}

#[test]
fn test_circular_referral_prevention() {
    let mut reg = instantiate(init_msg());
    reg.execute("user_a", 1000, ExecuteMsg::Register { referrer: None }).unwrap();
    reg.execute("user_b", 1000, ExecuteMsg::Register { referrer: Some("user_a".to_string()) })
        .unwrap();
    let res = reg.execute(
        "user_a",
        1000,
        ExecuteMsg::Register { referrer: Some("user_b".to_string()) },
    );
    assert!(res.is_err());
}

#[test]
fn test_points_allocation() {
    let mut reg = instantiate(init_msg());
    reg.execute("user", 1000, ExecuteMsg::Register { referrer: None }).unwrap();
    let res = reg.execute(
        "admin",
        1001,
        ExecuteMsg::AllocateRewards {
            user: "user".to_string(),
            points: 100,
            reason: PointsReason::ActivityBonus,
            related_user: None,
            event_id: Some("test_event".to_string()),
        },
    );
    assert!(res.is_ok());
    match reg.query(QueryMsg::GetUserPoints { user: "user".to_string() }).unwrap() {
        QueryAnswer::UserPoints(resp) => {
            assert_eq!(resp.points, 100);
        },
        _ => panic!("unexpected answer"),
    }
}
