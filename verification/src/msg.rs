//! The message surface of the engine: the mutating operations, the queries,
//! and their response types, all over plain values.

use vstd::prelude::*;
use crate::state::{PointsReason, PointsRecord, PointsRules, SystemConfig, UserInfo, UserLevel};

verus! {

/// Initial state of a registry: the admin, configuration and reward rules.
pub struct InstantiateMsg {
    pub admin: String,
    pub config: SystemConfig,
    pub points_rules: PointsRules,
}

/// One entry of a batch allocation.
pub struct RewardAllocation {
    pub user: String,
    pub points: u128,
    pub reason: PointsReason,
    pub related_user: Option<String>,
    pub event_id: Option<String>,
}

/// The mutating operations.
pub enum ExecuteMsg {
    Register { referrer: Option<String> },
    AllocateRewards {
        user: String,
        points: u128,
        reason: PointsReason,
        related_user: Option<String>,
        event_id: Option<String>,
    },
    BatchAllocateRewards { rewards: Vec<RewardAllocation> },
    WithdrawPoints { amount: u128 },
    UpdateConfig { config: SystemConfig },
    UpdatePointsRules { rules: PointsRules },
    EmergencyPause { paused: bool },
}

/// The queries.
pub enum QueryMsg {
    GetUserInfo { user: String },
    GetReferrer { user: String },
    GetDirectReferrals { user: String, limit: Option<u32>, start_after: Option<String> },
    GetReferralChain { user: String, max_depth: Option<u32> },
    GetUserPoints { user: String },
    GetPointsLeaderboard { limit: Option<u32>, start_after: Option<String> },
    GetPointsHistory { user: String, limit: Option<u32>, start_after: Option<u64> },
    GetConfig {},
    GetPointsRules {},
    GetLevelStats {},
    ValidateReferral { referrer: String, referee: String },
}

pub struct UserInfoResponse {
    pub user_info: UserInfo,
}

pub struct ReferrerResponse {
    pub referrer: Option<String>,
}

pub struct DirectReferralsResponse {
    pub referrals: Vec<String>,
    pub total: u32,
}

/// One ancestor on a referral chain, nearest first, levels starting at one.
pub struct ReferralNode {
    pub user: String,
    pub level: u32,
    pub registered_at: u64,
}

pub struct ReferralChainResponse {
    pub chain: Vec<ReferralNode>,
    pub depth: u32,
}

pub struct UserPointsResponse {
    pub points: u128,
    pub level: UserLevel,
    pub rank: Option<u32>,
}

/// One ranked leaderboard row; ranks start at one and are distinct and
/// sequential, equal balances included.
pub struct LeaderboardEntry {
    pub user: String,
    pub points: u128,
    pub level: UserLevel,
    pub rank: u32,
}

pub struct LeaderboardResponse {
    pub entries: Vec<LeaderboardEntry>,
    pub total: u32,
}

pub struct PointsHistoryResponse {
    pub records: Vec<PointsRecord>,
    pub total: u32,
}

pub struct ConfigResponse {
    pub config: SystemConfig,
}

pub struct PointsRulesResponse {
    pub rules: PointsRules,
}

/// How many users currently sit in each tier.
pub struct LevelStatsResponse {
    pub bronze: u32,
    pub silver: u32,
    pub gold: u32,
    pub platinum: u32,
    pub total_users: u32,
}

pub struct ValidationResponse {
    pub is_valid: bool,
    pub reason: Option<String>,
    pub depth: Option<u32>,
}

/// The answer of [`QueryMsg`] dispatch, one variant per query.
pub enum QueryAnswer {
    UserInfo(UserInfoResponse),
    Referrer(ReferrerResponse),
    DirectReferrals(DirectReferralsResponse),
    ReferralChain(ReferralChainResponse),
    UserPoints(UserPointsResponse),
    Leaderboard(LeaderboardResponse),
    PointsHistory(PointsHistoryResponse),
    Config(ConfigResponse),
    PointsRules(PointsRulesResponse),
    LevelStats(LevelStatsResponse),
    Validation(ValidationResponse),
}

} // verus!
