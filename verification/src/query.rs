//! The read-only queries of the engine: user records, referral chains,
//! points, ranked leaderboard pages, paginated history, configuration and
//! tier statistics.

use vstd::prelude::*;
use crate::error::ContractError;
use crate::msg::{
    ConfigResponse, DirectReferralsResponse, LeaderboardEntry, LeaderboardResponse,
    LevelStatsResponse, PointsHistoryResponse, PointsRulesResponse, ReferralChainResponse,
    ReferralNode, ReferrerResponse, UserInfoResponse, UserPointsResponse, ValidationResponse,
};
use crate::referral::{ancestors_of, chain_from, lemma_chain_len, lemma_chain_registered};
use crate::state::{
    contains_id, idx_of, info_matches, lemma_idx_of, registered_active, PointsRecord, Registry,
    UserEntry, UserLevel,
};
use crate::user::find_user;

verus! {

/// Pagination: the limit a query falls back to, and the cap the server
/// enforces on any requested limit.
pub const DEFAULT_PAGE_LIMIT: u32 = 100;

pub const MAX_PAGE_LIMIT: u32 = 200;

/// The page size actually served for a requested limit.
pub open spec fn spec_eff_limit(limit: Option<u32>) -> u32 {
    match limit {
        Some(l) => if l > MAX_PAGE_LIMIT {
            MAX_PAGE_LIMIT
        } else {
            l
        },
        None => DEFAULT_PAGE_LIMIT,
    }
}

pub(crate) fn eff_limit(limit: Option<u32>) -> (r: u32)
    ensures
        r == spec_eff_limit(limit),
{
    match limit {
        Some(l) => if l > MAX_PAGE_LIMIT {
            MAX_PAGE_LIMIT
        } else {
            l
        },
        None => DEFAULT_PAGE_LIMIT,
    }
}

/// Number of registered users whose balance strictly exceeds `p`.
pub open spec fn count_greater(users: Seq<UserEntry>, p: u128) -> nat
    decreases users.len(),
{
    if users.len() == 0 {
        0nat
    } else {
        count_greater(users.drop_last(), p) + (if users.last().info.reward_points > p {
            1nat
        } else {
            0nat
        })
    }
}

/// Number of users currently in tier `level`.
pub open spec fn count_level(users: Seq<UserEntry>, level: UserLevel) -> nat
    decreases users.len(),
{
    if users.len() == 0 {
        0nat
    } else {
        count_level(users.drop_last(), level) + (if users.last().info.user_level == level {
            1nat
        } else {
            0nat
        })
    }
}

/// First position of `id` in a list of ids, `-1` when absent.
pub open spec fn find_pos(s: Seq<String>, id: Seq<char>) -> int
    decreases s.len(),
{
    if s.len() == 0 {
        -1
    } else if s[0]@ == id {
        0
    } else {
        let r = find_pos(s.drop_first(), id);
        if r == -1 {
            -1
        } else {
            r + 1
        }
    }
}

proof fn lemma_find_pos_at(s: Seq<String>, id: Seq<char>, i: int)
    requires
        0 <= i < s.len(),
        s[i]@ == id,
        forall|j: int| 0 <= j < i ==> (#[trigger] s[j])@ != id,
    ensures
        find_pos(s, id) == i,
    decreases i,
{
    if i > 0 {
        lemma_find_pos_at(s.drop_first(), id, i - 1);
    }
}

proof fn lemma_find_pos_none(s: Seq<String>, id: Seq<char>)
    requires
        forall|j: int| 0 <= j < s.len() ==> (#[trigger] s[j])@ != id,
    ensures
        find_pos(s, id) == -1,
    decreases s.len(),
{
    if s.len() > 0 {
        lemma_find_pos_none(s.drop_first(), id);
    }
}

/// The portion of a referral list that follows the pagination cursor.
pub open spec fn page_base(all: Seq<String>, start_after: Option<String>) -> Seq<String> {
    match start_after {
        Some(s) => if find_pos(all, s@) >= 0 {
            all.skip(find_pos(all, s@) + 1)
        } else {
            all
        },
        None => all,
    }
}

/// The history records that follow a timestamp cursor, in append order.
pub open spec fn history_page(h: Seq<PointsRecord>, start_after: Option<u64>) -> Seq<
    PointsRecord,
> {
    match start_after {
        Some(s) => h.filter(|rec: PointsRecord| rec.timestamp > s),
        None => h,
    }
}

proof fn lemma_filter_one(x: PointsRecord, pred: spec_fn(PointsRecord) -> bool)
    ensures
        seq![x].filter(pred) == if pred(x) {
            seq![x]
        } else {
            Seq::<PointsRecord>::empty()
        },
{
    reveal(Seq::filter);
    assert(seq![x].drop_last() =~= Seq::<PointsRecord>::empty());
    assert(Seq::<PointsRecord>::empty().filter(pred) =~= Seq::<PointsRecord>::empty());
    if pred(x) {
        assert(seq![x].filter(pred) =~= seq![x]);
    } else {
        assert(seq![x].filter(pred) =~= Seq::<PointsRecord>::empty());
    }
}

/// Extending the history by one record extends the page by that record
/// exactly when it passes the cursor.
proof fn lemma_history_page_push(h: Seq<PointsRecord>, x: PointsRecord, start_after: Option<u64>)
    ensures
        history_page(h.push(x), start_after) == if (match start_after {
            Some(s) => x.timestamp > s,
            None => true,
        }) {
            history_page(h, start_after) + seq![x]
        } else {
            history_page(h, start_after)
        },
{
    match start_after {
        Some(s) => {
            let pred = |rec: PointsRecord| rec.timestamp > s;
            assert(h.push(x) =~= h + seq![x]);
            Seq::<PointsRecord>::filter_distributes_over_add(h, seq![x], pred);
            lemma_filter_one(x, pred);
            if pred(x) {
                assert(h.filter(pred) + seq![x].filter(pred) == h.filter(pred) + seq![x]);
            } else {
                assert(h.filter(pred) + seq![x].filter(pred) =~= h.filter(pred));
            }
        },
        None => {
            assert(history_page(h.push(x), start_after) == history_page(h, start_after) + seq![
                x,
            ]);
        },
    }
}

/// The page of a prefix is a prefix of the page of the whole history.
proof fn lemma_history_page_prefix(h: Seq<PointsRecord>, m: int, start_after: Option<u64>)
    requires
        0 <= m <= h.len(),
    ensures
        history_page(h.take(m), start_after).len() <= history_page(h, start_after).len(),
        forall|t: int|
            0 <= t < history_page(h.take(m), start_after).len() ==> #[trigger] history_page(
                h.take(m),
                start_after,
            )[t] == history_page(h, start_after)[t],
    decreases h.len() - m,
{
    if m == h.len() {
        assert(h.take(m) =~= h);
    } else {
        assert(h.take(m + 1) =~= h.take(m).push(h[m]));
        lemma_history_page_push(h.take(m), h[m], start_after);
        lemma_history_page_prefix(h, m + 1, start_after);
        let p_m = history_page(h.take(m), start_after);
        let p_m1 = history_page(h.take(m + 1), start_after);
        assert forall|t: int| 0 <= t < p_m.len() implies #[trigger] p_m[t] == history_page(
            h,
            start_after,
        )[t] by {
            assert(p_m1[t] == p_m[t]);
        }
    }
}

/// Balances that grow pointwise can only enlarge the set counted as
/// strictly greater.
proof fn lemma_count_greater_pointwise(pre: Seq<UserEntry>, post: Seq<UserEntry>, p: u128)
    requires
        pre.len() == post.len(),
        forall|j: int|
            0 <= j < pre.len() ==> (#[trigger] post[j]).info.reward_points
                >= pre[j].info.reward_points,
    ensures
        count_greater(post, p) >= count_greater(pre, p),
    decreases pre.len(),
{
    if pre.len() > 0 {
        assert forall|j: int|
            0 <= j < pre.drop_last().len() implies (#[trigger] post.drop_last()[j]).info.reward_points
            >= pre.drop_last()[j].info.reward_points by {
            assert(post.drop_last()[j] == post[j]);
            assert(pre.drop_last()[j] == pre[j]);
        }
        lemma_count_greater_pointwise(pre.drop_last(), post.drop_last(), p);
        assert(post.last().info.reward_points >= pre.last().info.reward_points);
    }
}

/// A user's rank — one plus the number of strictly greater balances — never
/// decreases when another user's balance increases (in particular when it
/// increases past this user's balance): the count of strictly richer users
/// can only grow.
pub proof fn lemma_rank_never_decreases(pre: Seq<UserEntry>, post: Seq<UserEntry>, u: int, v: int)
    requires
        pre.len() == post.len(),
        0 <= u < pre.len(),
        0 <= v < pre.len(),
        u != v,
        forall|j: int| 0 <= j < pre.len() && j != v ==> #[trigger] post[j] == pre[j],
        post[v].info.reward_points >= pre[v].info.reward_points,
    ensures
        1 + count_greater(post, post[u].info.reward_points) >= 1 + count_greater(
            pre,
            pre[u].info.reward_points,
        ),
{
    assert(post[u] == pre[u]);
    assert forall|j: int|
        0 <= j < pre.len() implies (#[trigger] post[j]).info.reward_points
        >= pre[j].info.reward_points by {
        if j != v {
            assert(post[j] == pre[j]);
        }
    }
    lemma_count_greater_pointwise(pre, post, pre[u].info.reward_points);
}

impl Registry {
    /// Rank of a balance: one more than the number of strictly greater
    /// balances.
    #[verifier::loop_isolation(false)]
    fn calculate_user_rank(&self, points: u128) -> (r: u32)
        requires
            self.users@.len() < u32::MAX,
        ensures
            r as int == 1 + count_greater(self.users@, points),
    {
        let mut rank: u32 = 1;
        let mut i: usize = 0;
        proof {
            assert(self.users@.take(0) =~= Seq::<UserEntry>::empty());
        }
        while i < self.users.len()
            invariant
                i <= self.users@.len(),
                rank as int == 1 + count_greater(self.users@.take(i as int), points),
                rank as int <= 1 + i,
            decreases self.users@.len() - i,
        {
            proof {
                assert(self.users@.take(i as int + 1).drop_last() =~= self.users@.take(i as int));
                assert(self.users@.take(i as int + 1).last() == self.users@[i as int]);
            }
            if self.users[i].info.reward_points > points {
                rank = rank + 1;
            }
            i += 1;
        }
        proof {
            assert(self.users@.take(self.users@.len() as int) =~= self.users@);
        }
        rank
    }

    /// The full record of `user`.
    pub fn query_user_info(&self, user: &str) -> (r: Result<UserInfoResponse, ContractError>)
        requires
            self.wf(),
        ensures
            match r {
                Ok(resp) => contains_id(self.users@, user@) && info_matches(
                    resp.user_info,
                    self.users@[idx_of(self.users@, user@)].info,
                ),
                Err(e) => !contains_id(self.users@, user@) && (e matches
                    ContractError::UserNotRegistered { user: u } && u@ == user@),
            },
    {
        match self.get_user_info(user) {
            Ok(info) => Ok(UserInfoResponse { user_info: info }),
            Err(e) => Err(e),
        }
    }

    /// The direct referrer of `user`, if it has one.
    pub fn query_referrer(&self, user: &str) -> (r: Result<ReferrerResponse, ContractError>)
        requires
            self.wf(),
        ensures
            match r {
                Ok(resp) => contains_id(self.users@, user@) && resp.referrer == self.users@[idx_of(
                    self.users@,
                    user@,
                )].info.recommender,
                Err(e) => !contains_id(self.users@, user@) && (e matches
                    ContractError::UserNotRegistered { user: u } && u@ == user@),
            },
    {
        match find_user(&self.users, user) {
            Some(i) => {
                proof {
                    lemma_idx_of(self.users@, user@);
                }
                Ok(ReferrerResponse {
                    referrer: crate::state::clone_opt_string(&self.users[i].info.recommender),
                })
            },
            None => Err(ContractError::UserNotRegistered { user: user.to_owned() }),
        }
    }

    /// One page of the direct referrals of `user`: the entries after the
    /// cursor, at most the served limit of them, with the total count after
    /// the cursor.
    #[verifier::loop_isolation(false)]
    pub fn query_direct_referrals(
        &self,
        user: &str,
        limit: Option<u32>,
        start_after: Option<String>,
    ) -> (r: Result<DirectReferralsResponse, ContractError>)
        requires
            self.wf(),
            contains_id(self.users@, user@) ==> self.users@[idx_of(
                self.users@,
                user@,
            )].info.direct_referrals@.len() <= u32::MAX,
        ensures
            match r {
                Ok(resp) => {
                    let all = self.users@[idx_of(self.users@, user@)].info.direct_referrals@;
                    let base = page_base(all, start_after);
                    let n = if spec_eff_limit(limit) as int <= base.len() {
                        spec_eff_limit(limit) as int
                    } else {
                        base.len() as int
                    };
                    &&& contains_id(self.users@, user@)
                    &&& resp.referrals@.len() == n
                    &&& forall|k: int| 0 <= k < n ==> (#[trigger] resp.referrals@[k])@ == base[k]@
                    &&& resp.total as int == base.len()
                },
                Err(e) => !contains_id(self.users@, user@) && (e matches
                    ContractError::UserNotRegistered { user: u } && u@ == user@),
            },
    {
        let i = match find_user(&self.users, user) {
            Some(i) => i,
            None => {
                return Err(ContractError::UserNotRegistered { user: user.to_owned() });
            },
        };
        proof {
            lemma_idx_of(self.users@, user@);
        }
        let list = &self.users[i].info.direct_referrals;
        let ghost all = list@;
        // Find the cursor position, if any.
        let mut start: usize = 0;
        match &start_after {
            Some(cursor) => {
                let mut j: usize = 0;
                let mut found: bool = false;
                while j < list.len() && !found
                    invariant
                        j <= all.len(),
                        !found ==> start == 0,
                        !found ==> forall|k: int| 0 <= k < j ==> (#[trigger] all[k])@ != cursor@,
                        found ==> {
                            &&& 0 < j <= all.len()
                            &&& all[j - 1]@ == cursor@
                            &&& forall|k: int| 0 <= k < j - 1 ==> (#[trigger] all[k])@ != cursor@
                            &&& start == j
                        },
                    decreases all.len() - j,
                {
                    if crate::order::str_eq(list[j].as_str(), cursor.as_str()) {
                        found = true;
                        start = j + 1;
                    }
                    j += 1;
                }
                proof {
                    if found {
                        lemma_find_pos_at(all, cursor@, start - 1);
                        assert(page_base(all, start_after) == all.skip(start as int));
                    } else {
                        lemma_find_pos_none(all, cursor@);
                        assert(page_base(all, start_after) == all);
                        assert(all.skip(0) =~= all);
                    }
                }
            },
            None => {
                proof {
                    assert(page_base(all, start_after) == all);
                    assert(all.skip(0) =~= all);
                }
            },
        }
        let ghost base = page_base(all, start_after);
        proof {
            assert(base =~= all.skip(start as int));
        }
        let lim = eff_limit(limit) as usize;
        let total_usize = list.len() - start;
        let mut out: Vec<String> = Vec::new();
        let mut k: usize = start;
        while k < list.len() && out.len() < lim
            invariant
                start <= k <= all.len(),
                out@.len() == k - start,
                out@.len() <= lim,
                forall|t: int| 0 <= t < out@.len() ==> (#[trigger] out@[t])@ == base[t]@,
                base == all.skip(start as int),
                all == self.users@[idx_of(self.users@, user@)].info.direct_referrals@,
            decreases all.len() - k,
        {
            out.push(self.users[i].info.direct_referrals[k].clone());
            k += 1;
        }
        let total = total_usize as u32;
        Ok(DirectReferralsResponse { referrals: out, total })
    }

    /// The ancestor chain of `user` as ranked nodes, nearest first.
    #[verifier::loop_isolation(false)]
    pub fn query_referral_chain(&self, user: &str, max_depth: Option<u32>) -> (r: Result<
        ReferralChainResponse,
        ContractError,
    >)
        requires
            self.wf(),
        ensures
            match r {
                Ok(resp) => {
                    let depth = match max_depth {
                        Some(d) => d,
                        None => self.config.max_referral_depth,
                    };
                    let full = if contains_id(self.users@, user@) {
                        chain_from(self.users@, idx_of(self.users@, user@), depth as nat)
                    } else {
                        Seq::empty()
                    };
                    &&& contains_id(self.users@, user@)
                    &&& resp.chain@.len() == full.len()
                    &&& resp.depth as int == full.len()
                    &&& forall|k: int|
                        0 <= k < full.len() ==> {
                            let node = #[trigger] resp.chain@[k];
                            &&& node.user@ == full[k]
                            &&& node.level as int == k + 1
                            &&& node.registered_at == self.users@[idx_of(
                                self.users@,
                                full[k],
                            )].info.registered_at
                        }
                },
                Err(e) => !contains_id(self.users@, user@) && (e matches
                    ContractError::UserNotRegistered { user: u } && u@ == user@),
            },
    {
        if !self.user_exists(user) {
            return Err(ContractError::UserNotRegistered { user: user.to_owned() });
        }
        proof {
            lemma_idx_of(self.users@, user@);
        }
        let depth = match max_depth {
            Some(d) => d,
            None => self.config.max_referral_depth,
        };
        let ids = self.get_referral_chain(user, Some(depth));
        let ghost full = chain_from(self.users@, idx_of(self.users@, user@), depth as nat);
        proof {
            lemma_chain_len(self.users@, idx_of(self.users@, user@), depth as nat);
            lemma_chain_registered(self.users@, idx_of(self.users@, user@), depth as nat);
        }
        let mut chain: Vec<ReferralNode> = Vec::new();
        let mut k: usize = 0;
        while k < ids.len()
            invariant
                k <= ids@.len(),
                chain@.len() == k,
                forall|t: int|
                    0 <= t < k ==> {
                        let node = #[trigger] chain@[t];
                        &&& node.user@ == full[t]
                        &&& node.level as int == t + 1
                        &&& node.registered_at == self.users@[idx_of(
                            self.users@,
                            full[t],
                        )].info.registered_at
                    },
            decreases ids@.len() - k,
        {
            let id = &ids[k];
            let registered_at = match find_user(&self.users, id.as_str()) {
                Some(j) => {
                    proof {
                        lemma_idx_of(self.users@, id@);
                    }
                    self.users[j].info.registered_at
                },
                None => {
                    proof {
                        assert(contains_id(self.users@, full[k as int]));
                        assert(false);
                    }
                    0
                },
            };
            let level = (k as u32) + 1;
            chain.push(ReferralNode { user: id.clone(), level, registered_at });
            k += 1;
        }
        let depth_out = ids.len() as u32;
        Ok(ReferralChainResponse { chain, depth: depth_out })
    }

    /// Balance, tier and rank of `user`.
    pub fn query_user_points(&self, user: &str) -> (r: Result<UserPointsResponse, ContractError>)
        requires
            self.wf(),
            self.users@.len() < u32::MAX,
        ensures
            match r {
                Ok(resp) => {
                    let info = self.users@[idx_of(self.users@, user@)].info;
                    &&& contains_id(self.users@, user@)
                    &&& resp.points == info.reward_points
                    &&& resp.level == info.user_level
                    &&& (resp.rank matches Some(rk) && rk as int == 1 + count_greater(
                        self.users@,
                        info.reward_points,
                    ))
                },
                Err(e) => !contains_id(self.users@, user@) && (e matches
                    ContractError::UserNotRegistered { user: u } && u@ == user@),
            },
    {
        match find_user(&self.users, user) {
            Some(i) => {
                proof {
                    lemma_idx_of(self.users@, user@);
                }
                let points = self.users[i].info.reward_points;
                let level = self.users[i].info.user_level;
                let rank = self.calculate_user_rank(points);
                Ok(UserPointsResponse { points, level, rank: Some(rank) })
            },
            None => Err(ContractError::UserNotRegistered { user: user.to_owned() }),
        }
    }

    /// Tier and registration statistics over the whole arena.
    #[verifier::loop_isolation(false)]
    pub fn query_level_stats(&self) -> (r: LevelStatsResponse)
        requires
            self.users@.len() <= u32::MAX,
        ensures
            r.bronze as int == count_level(self.users@, UserLevel::Bronze),
            r.silver as int == count_level(self.users@, UserLevel::Silver),
            r.gold as int == count_level(self.users@, UserLevel::Gold),
            r.platinum as int == count_level(self.users@, UserLevel::Platinum),
            r.total_users as int == self.users@.len(),
    {
        let mut bronze: u32 = 0;
        let mut silver: u32 = 0;
        let mut gold: u32 = 0;
        let mut platinum: u32 = 0;
        let mut i: usize = 0;
        proof {
            assert(self.users@.take(0) =~= Seq::<UserEntry>::empty());
        }
        while i < self.users.len()
            invariant
                i <= self.users@.len(),
                bronze as int == count_level(self.users@.take(i as int), UserLevel::Bronze),
                silver as int == count_level(self.users@.take(i as int), UserLevel::Silver),
                gold as int == count_level(self.users@.take(i as int), UserLevel::Gold),
                platinum as int == count_level(self.users@.take(i as int), UserLevel::Platinum),
                bronze as int + silver as int + gold as int + platinum as int <= i,
            decreases self.users@.len() - i,
        {
            proof {
                assert(self.users@.take(i as int + 1).drop_last() =~= self.users@.take(i as int));
                assert(self.users@.take(i as int + 1).last() == self.users@[i as int]);
            }
            match self.users[i].info.user_level {
                UserLevel::Bronze => {
                    bronze = bronze + 1;
                },
                UserLevel::Silver => {
                    silver = silver + 1;
                },
                UserLevel::Gold => {
                    gold = gold + 1;
                },
                UserLevel::Platinum => {
                    platinum = platinum + 1;
                },
            }
            i += 1;
        }
        proof {
            assert(self.users@.take(self.users@.len() as int) =~= self.users@);
        }
        LevelStatsResponse { bronze, silver, gold, platinum, total_users: self.users.len() as u32 }
    }

    /// The current configuration.
    pub fn query_config(&self) -> (r: ConfigResponse)
        ensures
            r.config == self.config,
    {
        ConfigResponse { config: self.config.duplicate() }
    }

    /// The current reward rules.
    pub fn query_points_rules(&self) -> (r: PointsRulesResponse)
        ensures
            crate::state::rules_match(r.rules, self.rules),
    {
        PointsRulesResponse { rules: self.rules.duplicate() }
    }

    /// One leaderboard page: the highest balances first, ranks starting at
    /// one and increasing by one per row, equal balances included (ranks are
    /// never shared).
    #[verifier::loop_isolation(false)]
    pub fn query_points_leaderboard(&self, limit: Option<u32>, _start_after: Option<String>) -> (r:
        LeaderboardResponse)
        requires
            self.wf(),
        ensures
            ({
                let lb = self.leaderboard@;
                let n = if spec_eff_limit(limit) as int <= lb.len() {
                    spec_eff_limit(limit) as int
                } else {
                    lb.len() as int
                };
                &&& r.entries@.len() == n
                &&& r.total as int == n
                &&& forall|k: int|
                    0 <= k < n ==> {
                        let e = #[trigger] r.entries@[k];
                        &&& e.user@ == lb[k].user@
                        &&& e.points == lb[k].points
                        &&& e.rank as int == k + 1
                        &&& e.level == self.users@[idx_of(self.users@, lb[k].user@)].info.user_level
                    }
                &&& forall|k: int, l: int|
                    0 <= k < l < n ==> (#[trigger] r.entries@[k]).points >= (#[trigger] r.entries@[l]).points
            }),
    {
        let lim = eff_limit(limit) as usize;
        let mut entries: Vec<LeaderboardEntry> = Vec::new();
        let mut k: usize = 0;
        while k < self.leaderboard.len() && k < lim
            invariant
                k <= self.leaderboard@.len(),
                k <= lim,
                entries@.len() == k,
                forall|t: int|
                    0 <= t < k ==> {
                        let e = #[trigger] entries@[t];
                        &&& e.user@ == self.leaderboard@[t].user@
                        &&& e.points == self.leaderboard@[t].points
                        &&& e.rank as int == t + 1
                        &&& e.level == self.users@[idx_of(
                            self.users@,
                            self.leaderboard@[t].user@,
                        )].info.user_level
                    },
            decreases self.leaderboard@.len() - k,
        {
            let user = self.leaderboard[k].user.clone();
            let points = self.leaderboard[k].points;
            let level = match find_user(&self.users, user.as_str()) {
                Some(j) => {
                    proof {
                        lemma_idx_of(self.users@, user@);
                    }
                    self.users[j].info.user_level
                },
                None => {
                    proof {
                        assert(contains_id(self.users@, self.leaderboard@[k as int].user@));
                        assert(false);
                    }
                    UserLevel::Bronze
                },
            };
            let rank = (k as u32) + 1;
            entries.push(LeaderboardEntry { user, points, level, rank });
            k += 1;
        }
        let total = entries.len() as u32;
        proof {
            assert forall|a: int, b: int| 0 <= a < b < entries@.len() implies (#[trigger] entries@[a]).points
                >= (#[trigger] entries@[b]).points by {
                assert(crate::state::board_precedes(
                    self.leaderboard@[a],
                    self.leaderboard@[b],
                ));
            }
        }
        LeaderboardResponse { entries, total }
    }

    /// One page of the points history of `user`: the records after the
    /// timestamp cursor, in append order, with the total count after the
    /// cursor.
    #[verifier::loop_isolation(false)]
    pub fn query_points_history(
        &self,
        user: &str,
        limit: Option<u32>,
        start_after: Option<u64>,
    ) -> (r: Result<PointsHistoryResponse, ContractError>)
        requires
            self.wf(),
            contains_id(self.users@, user@) ==> self.users@[idx_of(
                self.users@,
                user@,
            )].info.points_history@.len() <= u32::MAX,
        ensures
            match r {
                Ok(resp) => {
                    let h = self.users@[idx_of(self.users@, user@)].info.points_history@;
                    let base = history_page(h, start_after);
                    let n = if spec_eff_limit(limit) as int <= base.len() {
                        spec_eff_limit(limit) as int
                    } else {
                        base.len() as int
                    };
                    &&& contains_id(self.users@, user@)
                    &&& resp.records@.len() == n
                    &&& forall|k: int| 0 <= k < n ==> #[trigger] resp.records@[k] == base[k]
                    &&& resp.total as int == base.len()
                },
                Err(e) => !contains_id(self.users@, user@) && (e matches
                    ContractError::UserNotRegistered { user: u } && u@ == user@),
            },
    {
        let i = match find_user(&self.users, user) {
            Some(i) => i,
            None => {
                return Err(ContractError::UserNotRegistered { user: user.to_owned() });
            },
        };
        proof {
            lemma_idx_of(self.users@, user@);
        }
        let ghost h = self.users@[i as int].info.points_history@;
        let lim = eff_limit(limit) as usize;
        let mut out: Vec<PointsRecord> = Vec::new();
        let mut matched: usize = 0;
        let mut j: usize = 0;
        proof {
            assert(h.take(0) =~= Seq::<PointsRecord>::empty());
            assert(history_page(h.take(0), start_after) =~= Seq::<PointsRecord>::empty()) by {
                match start_after {
                    Some(s) => {
                        reveal(Seq::filter);
                    },
                    None => {},
                }
            }
        }
        while j < self.users[i].info.points_history.len()
            invariant
                0 <= i < self.users@.len(),
                h == self.users@[i as int].info.points_history@,
                j <= h.len(),
                matched as int == history_page(h.take(j as int), start_after).len(),
                matched <= j,
                out@.len() == (if lim <= matched {
                    lim as int
                } else {
                    matched as int
                }),
                forall|t: int|
                    0 <= t < out@.len() ==> #[trigger] out@[t] == history_page(
                        h.take(j as int),
                        start_after,
                    )[t],
                forall|t: int|
                    0 <= t < history_page(h.take(j as int), start_after).len() ==> #[trigger] history_page(
                        h.take(j as int),
                        start_after,
                    )[t] == history_page(h, start_after)[t],
                history_page(h.take(j as int), start_after).len() <= history_page(
                    h,
                    start_after,
                ).len(),
            decreases h.len() - j,
        {
            let rec = &self.users[i].info.points_history[j];
            let keep = match start_after {
                Some(s) => rec.timestamp > s,
                None => true,
            };
            proof {
                assert(h.take(j as int + 1) =~= h.take(j as int).push(h[j as int]));
                lemma_history_page_push(h.take(j as int), h[j as int], start_after);
                lemma_history_page_prefix(h, j as int + 1, start_after);
            }
            if keep {
                matched = matched + 1;
                if out.len() < lim {
                    out.push(rec.duplicate());
                }
            }
            j += 1;
        }
        proof {
            assert(h.take(h.len() as int) =~= h);
        }
        let total = matched as u32;
        Ok(PointsHistoryResponse { records: out, total })
    }

    /// Whether a referral edge from `referrer` to `referee` would be
    /// accepted, with the reason when it would not.
    pub fn query_validate_referral(&self, referrer: &str, referee: &str) -> (r: ValidationResponse)
        requires
            self.wf(),
        ensures
            r.is_valid == (registered_active(self.users@, referrer@) && !contains_id(
                self.users@,
                referee@,
            ) && !ancestors_of(self.users@, referrer@).contains(referee@)),
            r.is_valid ==> r.reason is None && r.depth == Some(1u32),
            !r.is_valid ==> r.reason is Some && r.depth is None,
            !registered_active(self.users@, referrer@) ==> (r.reason matches Some(s) && s@
                == "Referrer not registered"@),
            registered_active(self.users@, referrer@) && contains_id(self.users@, referee@) ==> (
            r.reason matches Some(s) && s@ == "Referee already registered"@),
            registered_active(self.users@, referrer@) && !contains_id(self.users@, referee@)
                && ancestors_of(self.users@, referrer@).contains(referee@) ==> (r.reason matches
            Some(s) && s@ == "Circular referral detected"@),
    {
        match self.validate_referral(referrer, referee) {
            Ok(()) => ValidationResponse { is_valid: true, reason: None, depth: Some(1) },
            Err(e) => {
                let reason = match e {
                    ContractError::InvalidReferrer { .. } => "Referrer not registered".to_owned(),
                    ContractError::UserAlreadyRegistered { .. } => {
                        "Referee already registered".to_owned()
                    },
                    ContractError::CircularReferral { .. } => {
                        "Circular referral detected".to_owned()
                    },
                    _ => {
                        proof {
                            assert(false);
                        }
                        "Referrer not registered".to_owned()
                    },
                };
                ValidationResponse { is_valid: false, reason: Some(reason), depth: None }
            },
        }
    }
}

} // verus!
