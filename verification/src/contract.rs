//! The operation surface of the engine: creating a registry and dispatching
//! the mutating operations and the queries to their handlers.

use vstd::prelude::*;
use crate::error::ContractError;
use crate::execute::{batch_all_active, batch_applied, batch_first_invalid_err, batch_ok, register_post};
use crate::msg::{ExecuteMsg, InstantiateMsg, QueryAnswer, QueryMsg};
use crate::points::{allocate_post, withdraw_post};
use crate::query::{count_greater, count_level, history_page, page_base, spec_eff_limit};
use crate::referral::{ancestors_of, chain_from};
use crate::state::{
    contains_id, idx_of, info_matches, opt_view, points_of, referrer_counters_ok,
    registered_active, Registry, SystemConfig, UserLevel,
};

verus! {

/// A fresh registry: the given configuration and rules, no users, an empty
/// leaderboard, and a clear re-entrancy flag.
pub fn instantiate(msg: InstantiateMsg) -> (r: Registry)
    ensures
        r.wf(),
        r.config == msg.config,
        r.rules == msg.points_rules,
        r.users@.len() == 0,
        r.leaderboard@.len() == 0,
        !r.reentrancy_lock,
{
    Registry {
        config: msg.config,
        rules: msg.points_rules,
        users: Vec::new(),
        leaderboard: Vec::new(),
        reentrancy_lock: false,
    }
}

impl Registry {
    /// Dispatch of one mutating operation on behalf of `sender` at time
    /// `now`; each arm behaves exactly as its handler.
    pub fn execute(&mut self, sender: &str, now: u64, msg: ExecuteMsg) -> (r: Result<
        (),
        ContractError,
    >)
        requires
            old(self).wf(),
            match msg {
                ExecuteMsg::Register { referrer } => match referrer {
                    Some(p) => referrer_counters_ok(old(self).users@, p@),
                    None => true,
                },
                ExecuteMsg::AllocateRewards { user, points, .. } => points <= i128::MAX as u128
                    && (registered_active(old(self).users@, user@) ==> points_of(
                    old(self).users@,
                    user@,
                ) + points <= u128::MAX),
                ExecuteMsg::BatchAllocateRewards { rewards } => batch_ok(
                    old(self).users@,
                    rewards@,
                ),
                ExecuteMsg::WithdrawPoints { amount } => amount <= i128::MAX as u128,
                _ => true,
            },
        ensures
            final(self).wf(),
            match msg {
                ExecuteMsg::Register { referrer } => register_post(
                    *old(self),
                    *final(self),
                    r,
                    sender@,
                    opt_view(referrer),
                    now,
                ),
                ExecuteMsg::AllocateRewards { user, points, reason, related_user, event_id } => {
                    &&& (sender@ != old(self).config.admin@ ==> *final(self) == *old(self) && (r
                        matches Err(e) && e matches ContractError::Unauthorized { .. }))
                    &&& (sender@ == old(self).config.admin@ ==> allocate_post(
                        *old(self),
                        *final(self),
                        r,
                        user@,
                        points,
                        reason,
                        opt_view(related_user),
                        opt_view(event_id),
                        now,
                    ))
                },
                ExecuteMsg::BatchAllocateRewards { rewards } => {
                    &&& (sender@ != old(self).config.admin@ ==> *final(self) == *old(self) && (r
                        matches Err(e) && e matches ContractError::Unauthorized { .. }))
                    &&& (sender@ == old(self).config.admin@ ==> match r {
                        Ok(()) => batch_all_active(old(self).users@, rewards@) && batch_applied(
                            *old(self),
                            *final(self),
                            rewards@,
                            now,
                        ),
                        Err(e) => *final(self) == *old(self) && batch_first_invalid_err(
                            old(self).users@,
                            rewards@,
                            e,
                        ),
                    })
                },
                ExecuteMsg::WithdrawPoints { amount } => {
                    &&& (old(self).config.emergency_paused ==> *final(self) == *old(self) && r
                        == Result::<(), ContractError>::Err(ContractError::SystemPaused))
                    &&& (!old(self).config.emergency_paused ==> withdraw_post(
                        *old(self),
                        *final(self),
                        r,
                        sender@,
                        amount,
                        now,
                    ))
                },
                ExecuteMsg::UpdateConfig { config } => match r {
                    Ok(()) => {
                        &&& sender@ == old(self).config.admin@
                        &&& final(self).config == config
                        &&& final(self).rules == old(self).rules
                        &&& final(self).users == old(self).users
                        &&& final(self).leaderboard == old(self).leaderboard
                        &&& final(self).reentrancy_lock == old(self).reentrancy_lock
                    },
                    Err(e) => {
                        &&& sender@ != old(self).config.admin@
                        &&& *final(self) == *old(self)
                        &&& (e matches ContractError::Unauthorized { .. })
                    },
                },
                ExecuteMsg::UpdatePointsRules { rules } => match r {
                    Ok(()) => {
                        &&& sender@ == old(self).config.admin@
                        &&& final(self).rules == rules
                        &&& final(self).config == old(self).config
                        &&& final(self).users == old(self).users
                        &&& final(self).leaderboard == old(self).leaderboard
                        &&& final(self).reentrancy_lock == old(self).reentrancy_lock
                    },
                    Err(e) => {
                        &&& sender@ != old(self).config.admin@
                        &&& *final(self) == *old(self)
                        &&& (e matches ContractError::Unauthorized { .. })
                    },
                },
                ExecuteMsg::EmergencyPause { paused } => match r {
                    Ok(()) => {
                        &&& sender@ == old(self).config.admin@
                        &&& final(self).config == (SystemConfig {
                            emergency_paused: paused,
                            ..old(self).config
                        })
                        &&& final(self).rules == old(self).rules
                        &&& final(self).users == old(self).users
                        &&& final(self).leaderboard == old(self).leaderboard
                        &&& final(self).reentrancy_lock == old(self).reentrancy_lock
                    },
                    Err(e) => {
                        &&& sender@ != old(self).config.admin@
                        &&& *final(self) == *old(self)
                        &&& (e matches ContractError::Unauthorized { .. })
                    },
                },
            },
    {
        match msg {
            ExecuteMsg::Register { referrer } => self.execute_register(sender, referrer, now),
            ExecuteMsg::AllocateRewards { user, points, reason, related_user, event_id } => self
                .execute_allocate_rewards(
                sender,
                user.as_str(),
                points,
                reason,
                related_user,
                event_id,
                now,
            ),
            ExecuteMsg::BatchAllocateRewards { rewards } => self.execute_batch_allocate_rewards(
                sender,
                rewards,
                now,
            ),
            ExecuteMsg::WithdrawPoints { amount } => self.execute_withdraw_points(
                sender,
                amount,
                now,
            ),
            ExecuteMsg::UpdateConfig { config } => self.execute_update_config(sender, config),
            ExecuteMsg::UpdatePointsRules { rules } => self.execute_update_points_rules(
                sender,
                rules,
            ),
            ExecuteMsg::EmergencyPause { paused } => self.execute_emergency_pause(sender, paused),
        }
    }

    /// Dispatch of one query; each arm answers exactly as its handler.
    pub fn query(&self, msg: QueryMsg) -> (r: Result<QueryAnswer, ContractError>)
        requires
            self.wf(),
            match msg {
                QueryMsg::GetUserPoints { .. } => self.users@.len() < u32::MAX,
                QueryMsg::GetLevelStats {  } => self.users@.len() <= u32::MAX,
                QueryMsg::GetDirectReferrals { user, .. } => contains_id(self.users@, user@)
                    ==> self.users@[idx_of(self.users@, user@)].info.direct_referrals@.len()
                    <= u32::MAX,
                QueryMsg::GetPointsHistory { user, .. } => contains_id(self.users@, user@)
                    ==> self.users@[idx_of(self.users@, user@)].info.points_history@.len()
                    <= u32::MAX,
                _ => true,
            },
        ensures
            match msg {
                QueryMsg::GetUserInfo { user } => match r {
                    Ok(QueryAnswer::UserInfo(resp)) => contains_id(self.users@, user@)
                        && info_matches(
                        resp.user_info,
                        self.users@[idx_of(self.users@, user@)].info,
                    ),
                    Err(e) => !contains_id(self.users@, user@) && (e matches
                        ContractError::UserNotRegistered { user: u } && u@ == user@),
                    _ => false,
                },
                QueryMsg::GetReferrer { user } => match r {
                    Ok(QueryAnswer::Referrer(resp)) => contains_id(self.users@, user@)
                        && resp.referrer == self.users@[idx_of(
                        self.users@,
                        user@,
                    )].info.recommender,
                    Err(e) => !contains_id(self.users@, user@) && (e matches
                        ContractError::UserNotRegistered { user: u } && u@ == user@),
                    _ => false,
                },
                QueryMsg::GetDirectReferrals { user, limit, start_after } => match r {
                    Ok(QueryAnswer::DirectReferrals(resp)) => {
                        let all = self.users@[idx_of(self.users@, user@)].info.direct_referrals@;
                        let base = page_base(all, start_after);
                        let n = if spec_eff_limit(limit) as int <= base.len() {
                            spec_eff_limit(limit) as int
                        } else {
                            base.len() as int
                        };
                        &&& contains_id(self.users@, user@)
                        &&& resp.referrals@.len() == n
                        &&& forall|k: int|
                            0 <= k < n ==> (#[trigger] resp.referrals@[k])@ == base[k]@
                        &&& resp.total as int == base.len()
                    },
                    Err(e) => !contains_id(self.users@, user@) && (e matches
                        ContractError::UserNotRegistered { user: u } && u@ == user@),
                    _ => false,
                },
                QueryMsg::GetReferralChain { user, max_depth } => match r {
                    Ok(QueryAnswer::ReferralChain(resp)) => {
                        let depth = match max_depth {
                            Some(d) => d,
                            None => self.config.max_referral_depth,
                        };
                        let full = if contains_id(self.users@, user@) {
                            chain_from(self.users@, idx_of(self.users@, user@), depth as nat)
                        } else {
                            Seq::empty()
                        };
                        &&& contains_id(self.users@, user@)
                        &&& resp.chain@.len() == full.len()
                        &&& resp.depth as int == full.len()
                        &&& forall|k: int|
                            0 <= k < full.len() ==> (#[trigger] resp.chain@[k]).user@ == full[k]
                                && resp.chain@[k].level as int == k + 1
                                && resp.chain@[k].registered_at == self.users@[idx_of(
                                self.users@,
                                full[k],
                            )].info.registered_at
                    },
                    Err(e) => !contains_id(self.users@, user@) && (e matches
                        ContractError::UserNotRegistered { user: u } && u@ == user@),
                    _ => false,
                },
                QueryMsg::GetUserPoints { user } => match r {
                    Ok(QueryAnswer::UserPoints(resp)) => {
                        let info = self.users@[idx_of(self.users@, user@)].info;
                        &&& contains_id(self.users@, user@)
                        &&& resp.points == info.reward_points
                        &&& resp.level == info.user_level
                        &&& (resp.rank matches Some(rk) && rk as int == 1 + count_greater(
                            self.users@,
                            info.reward_points,
                        ))
                    },
                    Err(e) => !contains_id(self.users@, user@) && (e matches
                        ContractError::UserNotRegistered { user: u } && u@ == user@),
                    _ => false,
                },
                QueryMsg::GetPointsLeaderboard { limit, start_after } => match r {
                    Ok(QueryAnswer::Leaderboard(resp)) => {
                        let lb = self.leaderboard@;
                        let n = if spec_eff_limit(limit) as int <= lb.len() {
                            spec_eff_limit(limit) as int
                        } else {
                            lb.len() as int
                        };
                        &&& resp.entries@.len() == n
                        &&& resp.total as int == n
                        &&& forall|k: int|
                            0 <= k < n ==> (#[trigger] resp.entries@[k]).user@ == lb[k].user@
                                && resp.entries@[k].points == lb[k].points
                                && resp.entries@[k].rank as int == k + 1
                    },
                    _ => false,
                },
                QueryMsg::GetPointsHistory { user, limit, start_after } => match r {
                    Ok(QueryAnswer::PointsHistory(resp)) => {
                        let h = self.users@[idx_of(self.users@, user@)].info.points_history@;
                        let base = history_page(h, start_after);
                        let n = if spec_eff_limit(limit) as int <= base.len() {
                            spec_eff_limit(limit) as int
                        } else {
                            base.len() as int
                        };
                        &&& contains_id(self.users@, user@)
                        &&& resp.records@.len() == n
                        &&& forall|k: int| 0 <= k < n ==> #[trigger] resp.records@[k] == base[k]
                        &&& resp.total as int == base.len()
                    },
                    Err(e) => !contains_id(self.users@, user@) && (e matches
                        ContractError::UserNotRegistered { user: u } && u@ == user@),
                    _ => false,
                },
                QueryMsg::GetConfig {  } => match r {
                    Ok(QueryAnswer::Config(resp)) => resp.config == self.config,
                    _ => false,
                },
                QueryMsg::GetPointsRules {  } => match r {
                    Ok(QueryAnswer::PointsRules(resp)) => crate::state::rules_match(
                        resp.rules,
                        self.rules,
                    ),
                    _ => false,
                },
                QueryMsg::GetLevelStats {  } => match r {
                    Ok(QueryAnswer::LevelStats(resp)) => {
                        &&& resp.bronze as int == count_level(self.users@, UserLevel::Bronze)
                        &&& resp.silver as int == count_level(self.users@, UserLevel::Silver)
                        &&& resp.gold as int == count_level(self.users@, UserLevel::Gold)
                        &&& resp.platinum as int == count_level(self.users@, UserLevel::Platinum)
                        &&& resp.total_users as int == self.users@.len()
                    },
                    _ => false,
                },
                QueryMsg::ValidateReferral { referrer, referee } => match r {
                    Ok(QueryAnswer::Validation(resp)) => {
                        &&& resp.is_valid == (registered_active(self.users@, referrer@)
                            && !contains_id(self.users@, referee@) && !ancestors_of(
                            self.users@,
                            referrer@,
                        ).contains(referee@))
                        &&& (resp.is_valid ==> resp.reason is None && resp.depth == Some(1u32))
                        &&& (!resp.is_valid ==> resp.reason is Some && resp.depth is None)
                    },
                    _ => false,
                },
            },
    {
        match msg {
            QueryMsg::GetUserInfo { user } => match self.query_user_info(user.as_str()) {
                Ok(resp) => Ok(QueryAnswer::UserInfo(resp)),
                Err(e) => Err(e),
            },
            QueryMsg::GetReferrer { user } => match self.query_referrer(user.as_str()) {
                Ok(resp) => Ok(QueryAnswer::Referrer(resp)),
                Err(e) => Err(e),
            },
            QueryMsg::GetDirectReferrals { user, limit, start_after } => match self
                .query_direct_referrals(user.as_str(), limit, start_after) {
                Ok(resp) => Ok(QueryAnswer::DirectReferrals(resp)),
                Err(e) => Err(e),
            },
            QueryMsg::GetReferralChain { user, max_depth } => match self.query_referral_chain(
                user.as_str(),
                max_depth,
            ) {
                Ok(resp) => Ok(QueryAnswer::ReferralChain(resp)),
                Err(e) => Err(e),
            },
            QueryMsg::GetUserPoints { user } => match self.query_user_points(user.as_str()) {
                Ok(resp) => Ok(QueryAnswer::UserPoints(resp)),
                Err(e) => Err(e),
            },
            QueryMsg::GetPointsLeaderboard { limit, start_after } => Ok(
                QueryAnswer::Leaderboard(self.query_points_leaderboard(limit, start_after)),
            ),
            QueryMsg::GetPointsHistory { user, limit, start_after } => match self
                .query_points_history(user.as_str(), limit, start_after) {
                Ok(resp) => Ok(QueryAnswer::PointsHistory(resp)),
                Err(e) => Err(e),
            },
            QueryMsg::GetConfig {  } => Ok(QueryAnswer::Config(self.query_config())),
            QueryMsg::GetPointsRules {  } => Ok(QueryAnswer::PointsRules(self.query_points_rules())),
            QueryMsg::GetLevelStats {  } => Ok(QueryAnswer::LevelStats(self.query_level_stats())),
            QueryMsg::ValidateReferral { referrer, referee } => Ok(
                QueryAnswer::Validation(
                    self.query_validate_referral(referrer.as_str(), referee.as_str()),
                ),
            ),
        }
    }
}

} // verus!
