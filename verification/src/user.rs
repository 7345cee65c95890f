//! Per-user record operations: lookup, creation, tier recomputation,
//! referrer-side bookkeeping and activity updates.

use vstd::prelude::*;
use crate::decimal::FixedDec;
use crate::error::ContractError;
use crate::order::str_eq;
use crate::state::{
    contains_id, idx_of, info_matches, is_fresh_info, opt_view, spec_level_for, lemma_idx_of,
    Registry, ReferralStats, UserEntry, UserInfo, UserLevel, UserStatus,
};

verus! {

/// A mutable borrow of the arena entry at `i`.
pub(crate) fn user_at_mut(users: &mut Vec<UserEntry>, i: usize) -> (e: &mut UserEntry)
    requires
        i < old(users).len(),
    ensures
        *e == old(users)@[i as int],
        final(users)@ == old(users)@.update(i as int, *final(e)),
{
    &mut users[i]
}

/// Index of the entry whose id is `id`, if one exists.
pub fn find_user(users: &Vec<UserEntry>, id: &str) -> (r: Option<usize>)
    ensures
        match r {
            Some(i) => i < users.len() && users@[i as int].id@ == id@,
            None => !contains_id(users@, id@),
        },
{
    let mut i: usize = 0;
    while i < users.len()
        invariant
            i <= users@.len(),
            forall|j: int| 0 <= j < i ==> users@[j].id@ != id@,
        decreases users@.len() - i,
    {
        if str_eq(users[i].id.as_str(), id) {
            return Some(i);
        }
        i += 1;
    }
    None
}

/// A fresh user record: empty referrals and history, zero balance, Bronze
/// tier, active, registered now.
pub fn create_user_info(referrer: Option<String>, now: u64) -> (info: UserInfo)
    ensures
        is_fresh_info(info, opt_view(referrer), now),
{
    UserInfo {
        recommender: referrer,
        direct_referrals: Vec::new(),
        reward_points: 0,
        registered_at: now,
        last_active_at: now,
        user_level: UserLevel::Bronze,
        referral_stats: ReferralStats {
            total_referrals: 0,
            active_referrals: 0,
            monthly_referrals: 0,
            last_referral_time: None,
            success_rate: FixedDec { atomics: 0 },
        },
        points_history: Vec::new(),
        status: UserStatus::Active,
    }
}

impl Registry {
    /// Whether a user with this id is registered.
    pub fn user_exists(&self, user: &str) -> (r: bool)
        ensures
            r == contains_id(self.users@, user@),
    {
        find_user(&self.users, user).is_some()
    }

    /// A copy of the record of `user`, or `UserNotRegistered`.
    pub fn get_user_info(&self, user: &str) -> (r: Result<UserInfo, ContractError>)
        requires
            self.wf(),
        ensures
            match r {
                Ok(info) => contains_id(self.users@, user@) && info_matches(
                    info,
                    self.users@[idx_of(self.users@, user@)].info,
                ),
                Err(e) => !contains_id(self.users@, user@) && (e matches
                    ContractError::UserNotRegistered { user: u } && u@ == user@),
            },
    {
        match find_user(&self.users, user) {
            Some(i) => {
                proof {
                    lemma_idx_of(self.users@, user@);
                }
                Ok(self.users[i].info.duplicate())
            },
            None => Err(ContractError::UserNotRegistered { user: user.to_owned() }),
        }
    }

    /// Recomputes the tier of `user` from a referral count; every other part
    /// of the record, and all other state, is unchanged.
    pub fn update_user_level(&mut self, user: &str, referral_count: u32) -> (r: Result<
        bool,
        ContractError,
    >)
        requires
            old(self).wf(),
        ensures
            final(self).wf(),
            final(self).config == old(self).config,
            final(self).rules == old(self).rules,
            final(self).leaderboard == old(self).leaderboard,
            final(self).reentrancy_lock == old(self).reentrancy_lock,
            match r {
                Ok(changed) => {
                    let i = idx_of(old(self).users@, user@);
                    &&& contains_id(old(self).users@, user@)
                    &&& final(self).users@ =~= old(self).users@.update(
                        i,
                        UserEntry {
                            id: old(self).users@[i].id,
                            info: UserInfo {
                                user_level: spec_level_for(referral_count),
                                ..old(self).users@[i].info
                            },
                        },
                    )
                    &&& changed == (old(self).users@[i].info.user_level != spec_level_for(
                        referral_count,
                    ))
                },
                Err(e) => {
                    &&& !contains_id(old(self).users@, user@)
                    &&& *final(self) == *old(self)
                    &&& (e matches ContractError::UserNotRegistered { user: u } && u@ == user@)
                },
            },
    {
        match find_user(&self.users, user) {
            Some(i) => {
                proof {
                    lemma_idx_of(self.users@, user@);
                }
                let new_level = UserLevel::from_referral_count(referral_count);
                let changed = !(self.users[i].info.user_level == new_level);
                if changed {
                    let e = user_at_mut(&mut self.users, i);
                    e.info.user_level = new_level;
                    proof {
                        lemma_same_ids_preserve_registry(
                            old(self).users@,
                            self.users@,
                            self.leaderboard@,
                        );
                    }
                }
                Ok(changed)
            },
            None => Err(ContractError::UserNotRegistered { user: user.to_owned() }),
        }
    }

    /// Referrer-side bookkeeping of one new referral: appends `referee` to
    /// the direct-referral list, advances the counters and sets the referral
    /// time.  (The parent edge itself is recorded on the referee's own
    /// record when that record is created.)
    pub fn add_referral_relation(&mut self, referrer: &str, referee: &str, now: u64) -> (r: Result<
        (),
        ContractError,
    >)
        requires
            old(self).wf(),
            crate::state::referrer_counters_ok(old(self).users@, referrer@),
        ensures
            final(self).wf(),
            final(self).config == old(self).config,
            final(self).rules == old(self).rules,
            final(self).leaderboard == old(self).leaderboard,
            final(self).reentrancy_lock == old(self).reentrancy_lock,
            match r {
                Ok(()) => {
                    let i = idx_of(old(self).users@, referrer@);
                    &&& contains_id(old(self).users@, referrer@)
                    &&& final(self).users@.len() == old(self).users@.len()
                    &&& forall|j: int|
                        0 <= j < old(self).users@.len() && j != i ==> final(self).users@[j] == old(
                            self,
                        ).users@[j]
                    &&& final(self).users@[i].id == old(self).users@[i].id
                    &&& crate::state::referrer_bookkeeping_updated(
                        final(self).users@[i].info,
                        old(self).users@[i].info,
                        referee@,
                        now,
                    )
                },
                Err(e) => {
                    &&& !contains_id(old(self).users@, referrer@)
                    &&& *final(self) == *old(self)
                    &&& (e matches ContractError::UserNotRegistered { user: u } && u@ == referrer@)
                },
            },
    {
        match find_user(&self.users, referrer) {
            Some(i) => {
                proof {
                    lemma_idx_of(self.users@, referrer@);
                }
                let ghost pre_users = self.users@;
                let e = user_at_mut(&mut self.users, i);
                let ghost pre_list = e.info.direct_referrals@;
                e.info.direct_referrals.push(referee.to_owned());
                e.info.referral_stats.total_referrals = e.info.referral_stats.total_referrals + 1;
                e.info.referral_stats.active_referrals = e.info.referral_stats.active_referrals
                    + 1;
                e.info.referral_stats.last_referral_time = Some(now);
                proof {
                    assert(self.users@[i as int].info.direct_referrals@.drop_last() =~= pre_list);
                    lemma_same_ids_preserve_registry(pre_users, self.users@, self.leaderboard@);
                }
                Ok(())
            },
            None => Err(ContractError::UserNotRegistered { user: referrer.to_owned() }),
        }
    }

    /// Sets the last-active timestamp of `user`; everything else unchanged.
    pub fn update_user_activity(&mut self, user: &str, timestamp: u64) -> (r: Result<
        (),
        ContractError,
    >)
        requires
            old(self).wf(),
        ensures
            final(self).wf(),
            final(self).config == old(self).config,
            final(self).rules == old(self).rules,
            final(self).leaderboard == old(self).leaderboard,
            final(self).reentrancy_lock == old(self).reentrancy_lock,
            match r {
                Ok(()) => {
                    let i = idx_of(old(self).users@, user@);
                    &&& contains_id(old(self).users@, user@)
                    &&& final(self).users@ =~= old(self).users@.update(
                        i,
                        UserEntry {
                            id: old(self).users@[i].id,
                            info: UserInfo { last_active_at: timestamp, ..old(self).users@[i].info },
                        },
                    )
                },
                Err(e) => {
                    &&& !contains_id(old(self).users@, user@)
                    &&& *final(self) == *old(self)
                    &&& (e matches ContractError::UserNotRegistered { user: u } && u@ == user@)
                },
            },
    {
        match find_user(&self.users, user) {
            Some(i) => {
                proof {
                    lemma_idx_of(self.users@, user@);
                }
                let e = user_at_mut(&mut self.users, i);
                e.info.last_active_at = timestamp;
                proof {
                    lemma_same_ids_preserve_registry(
                        old(self).users@,
                        self.users@,
                        self.leaderboard@,
                    );
                }
                Ok(())
            },
            None => Err(ContractError::UserNotRegistered { user: user.to_owned() }),
        }
    }
}

/// Replacing records without touching ids, balances, histories or parent
/// edges preserves every arena invariant and the leaderboard correspondence.
pub proof fn lemma_same_ids_preserve_registry(
    pre: Seq<UserEntry>,
    post: Seq<UserEntry>,
    board: Seq<crate::state::BoardEntry>,
)
    requires
        crate::state::unique_ids(pre),
        pre.len() == post.len(),
        forall|i: int| 0 <= i < pre.len() ==> (#[trigger] post[i].id)@ == pre[i].id@,
        forall|i: int|
            0 <= i < pre.len() ==> (#[trigger] post[i].info).recommender
                == pre[i].info.recommender,
        forall|i: int|
            0 <= i < pre.len() ==> (#[trigger] post[i].info).reward_points
                == pre[i].info.reward_points,
        forall|i: int|
            0 <= i < pre.len() ==> (#[trigger] post[i].info).points_history@
                == pre[i].info.points_history@,
    ensures
        crate::state::unique_ids(post),
        crate::state::parents_ok(pre) ==> crate::state::parents_ok(post),
        crate::state::ledger_ok(pre) ==> crate::state::ledger_ok(post),
        forall|id: Seq<char>| #[trigger] contains_id(post, id) == contains_id(pre, id),
        forall|id: Seq<char>|
            contains_id(pre, id) ==> #[trigger] crate::state::points_of(post, id)
                == crate::state::points_of(pre, id),
        crate::state::board_matches_users(board, pre) ==> crate::state::board_matches_users(
            board,
            post,
        ),
{
    assert forall|id: Seq<char>| #[trigger] contains_id(post, id) == contains_id(pre, id) by {
        if contains_id(pre, id) {
            let i = choose|i: int| 0 <= i < pre.len() && pre[i].id@ == id;
            assert(post[i].id@ == id);
        }
        if contains_id(post, id) {
            let i = choose|i: int| 0 <= i < post.len() && post[i].id@ == id;
            assert(pre[i].id@ == id);
        }
    }
    assert forall|id: Seq<char>| contains_id(pre, id) implies #[trigger] crate::state::points_of(
        post,
        id,
    ) == crate::state::points_of(pre, id) by {
        let i = idx_of(pre, id);
        assert(0 <= i < pre.len() && pre[i].id@ == id);
        assert(post[i].id@ == id);
        assert(contains_id(post, id));
        let j = idx_of(post, id);
        assert(0 <= j < post.len() && post[j].id@ == id);
        assert(pre[j].id@ == id);
        if i != j {
            assert(pre[i].id@ != pre[j].id@);
        }
    }
    assert forall|i: int| 0 <= i < post.len() implies match #[trigger] post[i].info.recommender {
        Some(p) => crate::state::parents_ok(pre) ==> exists|j: int|
            0 <= j < i && post[j].id@ == p@,
        None => true,
    } by {
        if crate::state::parents_ok(pre) {
            match post[i].info.recommender {
                Some(p) => {
                    assert(pre[i].info.recommender == Some(p));
                    let j = choose|j: int| 0 <= j < i && pre[j].id@ == p@;
                    assert(post[j].id@ == p@);
                },
                None => {},
            }
        }
    }
    if crate::state::board_matches_users(board, pre) {
        assert forall|i: int| 0 <= i < post.len() implies #[trigger] crate::state::has_board_entry(
            board,
            post[i].id@,
        ) by {
            assert(crate::state::has_board_entry(board, pre[i].id@));
            let k0 = choose|k: int| #![trigger board[k].user]
                0 <= k < board.len() && board[k].user@ == pre[i].id@;
            assert(0 <= k0 < board.len() && board[k0].user@ == post[i].id@);
        }
        assert forall|k: int| 0 <= k < board.len() implies contains_id(
            post,
            #[trigger] board[k].user@,
        ) && board[k].points == crate::state::points_of(post, board[k].user@) by {
            assert(contains_id(pre, board[k].user@));
            assert(crate::state::points_of(post, board[k].user@) == crate::state::points_of(
                pre,
                board[k].user@,
            ));
        }
    }
}

} // verus!
