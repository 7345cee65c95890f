//! The data model of the engine: user records, system configuration, reward
//! rules, and the [`Registry`] arena holding the whole state, together with
//! its well-formedness invariant.

use vstd::prelude::*;
use crate::decimal::{FixedDec, FIXED_SCALE};
use crate::order::lex_lt;

verus! {

/// Discrete reward-multiplier bracket derived from a user's referral count.
#[derive(Clone, Copy, PartialEq, Eq, Structural, Debug)]
pub enum UserLevel {
    Bronze,
    Silver,
    Gold,
    Platinum,
}

/// Why points were credited or debited.
#[derive(Clone, Copy, PartialEq, Eq, Structural, Debug)]
pub enum PointsReason {
    ReferralReward,
    LevelUpBonus,
    ActivityBonus,
    Penalty,
    ManualAdjustment,
}

/// Account standing; deactivation is a status transition, never a removal.
#[derive(Clone, Copy, PartialEq, Eq, Structural, Debug)]
pub enum UserStatus {
    Active,
    Suspended,
    Banned,
}

/// The tier a referral count falls in: up to nine referrals Bronze, up to
/// forty-nine Silver, up to ninety-nine Gold, beyond that Platinum.
pub open spec fn spec_level_for(count: u32) -> UserLevel {
    if count <= 9 {
        UserLevel::Bronze
    } else if count <= 49 {
        UserLevel::Silver
    } else if count <= 99 {
        UserLevel::Gold
    } else {
        UserLevel::Platinum
    }
}

/// The built-in multiplier of each tier: 1.0, 1.2, 1.5 and 2.0.
pub open spec fn spec_default_multiplier(level: UserLevel) -> FixedDec {
    match level {
        UserLevel::Bronze => FixedDec { atomics: FIXED_SCALE },
        UserLevel::Silver => FixedDec { atomics: 1_200_000_000_000_000_000 },
        UserLevel::Gold => FixedDec { atomics: 1_500_000_000_000_000_000 },
        UserLevel::Platinum => FixedDec { atomics: 2_000_000_000_000_000_000 },
    }
}

impl UserLevel {
    /// Pure tier classifier over the total referral count.
    pub fn from_referral_count(count: u32) -> (level: Self)
        ensures
            level == spec_level_for(count),
    {
        if count <= 9 {
            UserLevel::Bronze
        } else if count <= 49 {
            UserLevel::Silver
        } else if count <= 99 {
            UserLevel::Gold
        } else {
            UserLevel::Platinum
        }
    }

    /// The built-in reward multiplier of this tier.
    pub fn multiplier(&self) -> (m: FixedDec)
        ensures
            m == spec_default_multiplier(*self),
    {
        match self {
            UserLevel::Bronze => FixedDec { atomics: FIXED_SCALE },
            UserLevel::Silver => FixedDec { atomics: 1_200_000_000_000_000_000 },
            UserLevel::Gold => FixedDec { atomics: 1_500_000_000_000_000_000 },
            UserLevel::Platinum => FixedDec { atomics: 2_000_000_000_000_000_000 },
        }
    }
}

/// Referral statistics of one user.
#[derive(Clone, Copy, PartialEq, Eq, Structural, Debug)]
pub struct ReferralStats {
    pub total_referrals: u32,
    pub active_referrals: u32,
    pub monthly_referrals: u32,
    pub last_referral_time: Option<u64>,
    pub success_rate: FixedDec,
}

/// One immutable entry of a user's points history.
#[derive(Debug)]
pub struct PointsRecord {
    /// Signed balance change; the balance always equals the sum of these.
    pub points_change: i128,
    pub reason: PointsReason,
    pub timestamp: u64,
    pub related_user: Option<String>,
    pub event_id: Option<String>,
}

/// One user record of the arena.
#[derive(Debug)]
pub struct UserInfo {
    /// The parent edge of the referral forest, if any.
    pub recommender: Option<String>,
    pub direct_referrals: Vec<String>,
    /// Current point balance; equals the sum of all history deltas.
    pub reward_points: u128,
    pub registered_at: u64,
    pub last_active_at: u64,
    pub user_level: UserLevel,
    pub referral_stats: ReferralStats,
    /// Append-only ledger of balance changes.
    pub points_history: Vec<PointsRecord>,
    pub status: UserStatus,
}

/// System-wide configuration, swapped atomically by admin operations.
#[derive(Debug)]
pub struct SystemConfig {
    pub enabled: bool,
    pub max_referral_depth: u32,
    pub referral_cooldown: u64,
    pub max_daily_referrals: u32,
    pub points_decay_period: u64,
    pub points_decay_rate: FixedDec,
    pub min_withdrawal_amount: u128,
    pub admin: String,
    pub emergency_paused: bool,
}

/// An activity reward rule (kept in configuration, not interpreted here).
#[derive(Debug)]
pub struct ActivityRule {
    pub activity_type: String,
    pub reward_points: u128,
    pub enabled: bool,
    pub cooldown: u64,
}

/// Reward rules: per-level rates, the base amount, and tier multipliers
/// (first matching entry wins; absent tiers fall back to 1.0).
#[derive(Debug)]
pub struct PointsRules {
    pub direct_referral_rate: FixedDec,
    pub level_2_rate: FixedDec,
    pub level_3_rate: FixedDec,
    pub base_points: u128,
    pub level_multipliers: Vec<(UserLevel, FixedDec)>,
    pub activity_rules: Vec<ActivityRule>,
}

/// A user record addressed by its id.
#[derive(Debug)]
pub struct UserEntry {
    pub id: String,
    pub info: UserInfo,
}

/// One entry of the secondary leaderboard index.
#[derive(Debug)]
pub struct BoardEntry {
    pub points: u128,
    pub user: String,
}

/// The whole engine state: one arena of user records, the balance-ordered
/// leaderboard index, configuration, reward rules and the re-entrancy flag.
#[derive(Debug)]
pub struct Registry {
    pub config: SystemConfig,
    pub rules: PointsRules,
    pub users: Vec<UserEntry>,
    pub leaderboard: Vec<BoardEntry>,
    pub reentrancy_lock: bool,
}

/// Sum of the signed deltas of a points history.
pub open spec fn sum_deltas(h: Seq<PointsRecord>) -> int
    decreases h.len(),
{
    if h.len() == 0 {
        0
    } else {
        sum_deltas(h.drop_last()) + h.last().points_change as int
    }
}

/// Whether a user with this id is registered.
pub open spec fn contains_id(users: Seq<UserEntry>, id: Seq<char>) -> bool {
    exists|i: int| 0 <= i < users.len() && users[i].id@ == id
}

/// The arena index of the user with this id (meaningful under uniqueness).
pub open spec fn idx_of(users: Seq<UserEntry>, id: Seq<char>) -> int {
    choose|i: int| 0 <= i < users.len() && users[i].id@ == id
}

/// Current balance of the user with this id.
pub open spec fn points_of(users: Seq<UserEntry>, id: Seq<char>) -> u128 {
    users[idx_of(users, id)].info.reward_points
}

/// Each id occurs at most once in the arena.
pub open spec fn unique_ids(users: Seq<UserEntry>) -> bool {
    forall|i: int, j: int| 0 <= i < j < users.len() ==> users[i].id@ != users[j].id@
}

/// Every parent edge points to a user registered strictly earlier.  Since
/// parents precede their children in the arena, every ancestor walk strictly
/// descends and the referral relation is a forest.
pub open spec fn parents_ok(users: Seq<UserEntry>) -> bool {
    forall|i: int|
        0 <= i < users.len() ==> match #[trigger] users[i].info.recommender {
            Some(p) => exists|j: int| 0 <= j < i && users[j].id@ == p@,
            None => true,
        }
}

/// Ledger consistency: every balance equals the sum of its history deltas.
pub open spec fn ledger_ok(users: Seq<UserEntry>) -> bool {
    forall|i: int|
        0 <= i < users.len() ==> users[i].info.reward_points as int == sum_deltas(
            users[i].info.points_history@,
        )
}

/// The strict order of the leaderboard: balance descending, then id
/// ascending.
pub open spec fn board_precedes(a: BoardEntry, b: BoardEntry) -> bool {
    a.points > b.points || (a.points == b.points && lex_lt(a.user@, b.user@))
}

pub open spec fn board_sorted(board: Seq<BoardEntry>) -> bool {
    forall|k: int, l: int| 0 <= k < l < board.len() ==> board_precedes(board[k], board[l])
}

pub open spec fn board_unique(board: Seq<BoardEntry>) -> bool {
    forall|k: int, l: int| 0 <= k < l < board.len() ==> board[k].user@ != board[l].user@
}

/// Whether the index holds an entry for this id.
pub open spec fn has_board_entry(board: Seq<BoardEntry>, id: Seq<char>) -> bool {
    exists|k: int| #![trigger board[k].user] 0 <= k < board.len() && board[k].user@ == id
}

/// The index lists exactly the registered users, each with its current
/// balance.
pub open spec fn board_matches_users(board: Seq<BoardEntry>, users: Seq<UserEntry>) -> bool {
    &&& forall|k: int|
        0 <= k < board.len() ==> contains_id(users, #[trigger] board[k].user@) && board[k].points
            == points_of(users, board[k].user@)
    &&& forall|i: int|
        0 <= i < users.len() ==> #[trigger] has_board_entry(board, users[i].id@)
}

impl Registry {
    /// The invariant every operation preserves: ids unique, parent edges
    /// acyclic (strictly descending), balances equal to ledger sums, and a
    /// sorted leaderboard index in one-to-one correspondence with the users.
    pub open spec fn wf(self) -> bool {
        &&& unique_ids(self.users@)
        &&& parents_ok(self.users@)
        &&& ledger_ok(self.users@)
        &&& board_sorted(self.leaderboard@)
        &&& board_unique(self.leaderboard@)
        &&& board_matches_users(self.leaderboard@, self.users@)
    }
}

/// Registered with active standing: the precondition of receiving points.
pub open spec fn registered_active(users: Seq<UserEntry>, id: Seq<char>) -> bool {
    contains_id(users, id) && users[idx_of(users, id)].info.status == UserStatus::Active
}

/// All record fields other than balance, history and tier are equal.
pub open spec fn same_but_points(a: UserInfo, b: UserInfo) -> bool {
    &&& a.recommender == b.recommender
    &&& a.direct_referrals@ == b.direct_referrals@
    &&& a.registered_at == b.registered_at
    &&& a.last_active_at == b.last_active_at
    &&& a.referral_stats == b.referral_stats
    &&& a.status == b.status
}

/// `a`'s history is `b`'s history extended by exactly one record with the
/// given delta, reason, timestamp and related ids.
pub open spec fn history_extended(
    a: UserInfo,
    b: UserInfo,
    delta: int,
    reason: PointsReason,
    related: Option<Seq<char>>,
    event: Option<Seq<char>>,
    now: u64,
) -> bool {
    &&& a.points_history@.len() == b.points_history@.len() + 1
    &&& a.points_history@.drop_last() == b.points_history@
    &&& a.points_history@.last().points_change as int == delta
    &&& a.points_history@.last().reason == reason
    &&& a.points_history@.last().timestamp == now
    &&& opt_view(a.points_history@.last().related_user) == related
    &&& opt_view(a.points_history@.last().event_id) == event
}

/// The referral counters of `id` (if registered) can still be advanced
/// without wrapping.
pub open spec fn referrer_counters_ok(users: Seq<UserEntry>, id: Seq<char>) -> bool {
    contains_id(users, id) ==> {
        let st = users[idx_of(users, id)].info.referral_stats;
        &&& st.total_referrals < u32::MAX
        &&& st.active_referrals < u32::MAX
    }
}

/// The referrer-side effect of one new referral: the referee id appended to
/// the direct-referral list, both counters advanced, the referral time set,
/// and everything else untouched.
pub open spec fn referrer_bookkeeping_updated(
    post: UserInfo,
    pre: UserInfo,
    referee: Seq<char>,
    now: u64,
) -> bool {
    &&& post.direct_referrals@.len() == pre.direct_referrals@.len() + 1
    &&& post.direct_referrals@.drop_last() == pre.direct_referrals@
    &&& post.direct_referrals@.last()@ == referee
    &&& post.referral_stats.total_referrals == pre.referral_stats.total_referrals + 1
    &&& post.referral_stats.active_referrals == pre.referral_stats.active_referrals + 1
    &&& post.referral_stats.monthly_referrals == pre.referral_stats.monthly_referrals
    &&& post.referral_stats.last_referral_time == Some(now)
    &&& post.referral_stats.success_rate == pre.referral_stats.success_rate
    &&& post.recommender == pre.recommender
    &&& post.reward_points == pre.reward_points
    &&& post.points_history@ == pre.points_history@
    &&& post.user_level == pre.user_level
    &&& post.status == pre.status
    &&& post.registered_at == pre.registered_at
    &&& post.last_active_at == pre.last_active_at
}

/// Appending a record for a brand-new id keeps uniqueness and the forest
/// shape, and touches no existing index.
pub proof fn lemma_push_entry(pre: Seq<UserEntry>, e: UserEntry)
    requires
        unique_ids(pre),
        !contains_id(pre, e.id@),
    ensures
        unique_ids(pre.push(e)),
        contains_id(pre.push(e), e.id@),
        idx_of(pre.push(e), e.id@) == pre.len(),
        forall|id: Seq<char>|
            id != e.id@ ==> #[trigger] contains_id(pre.push(e), id) == contains_id(pre, id),
        forall|id: Seq<char>|
            contains_id(pre, id) && id != e.id@ ==> #[trigger] idx_of(pre.push(e), id) == idx_of(
                pre,
                id,
            ),
        parents_ok(pre) && (match e.info.recommender {
            Some(p) => contains_id(pre, p@),
            None => true,
        }) ==> parents_ok(pre.push(e)),
{
    let post = pre.push(e);
    assert(post[pre.len() as int] == e);
    assert forall|i: int, j: int| 0 <= i < j < post.len() implies post[i].id@ != post[j].id@ by {
        if j < pre.len() {
            assert(post[i] == pre[i] && post[j] == pre[j]);
        } else {
            assert(post[j] == e);
            assert(post[i] == pre[i]);
            assert(!(0 <= i < pre.len() && pre[i].id@ == e.id@));
        }
    }
    lemma_idx_of(post, e.id@);
    assert forall|id: Seq<char>|
        id != e.id@ implies #[trigger] contains_id(post, id) == contains_id(pre, id) by {
        if contains_id(pre, id) {
            let w = choose|w: int| 0 <= w < pre.len() && pre[w].id@ == id;
            assert(post[w].id@ == id);
        }
        if contains_id(post, id) {
            let w = choose|w: int| 0 <= w < post.len() && post[w].id@ == id;
            assert(w < pre.len());
            assert(pre[w].id@ == id);
        }
    }
    assert forall|id: Seq<char>|
        contains_id(pre, id) && id != e.id@ implies #[trigger] idx_of(pre.push(e), id) == idx_of(
        pre,
        id,
    ) by {
        lemma_idx_of(pre, id);
        lemma_idx_of(post, id);
        let w = idx_of(pre, id);
        assert(post[w].id@ == id);
    }
    if parents_ok(pre) && (match e.info.recommender {
        Some(p) => contains_id(pre, p@),
        None => true,
    }) {
        assert forall|i: int|
            0 <= i < post.len() implies match #[trigger] post[i].info.recommender {
            Some(p) => exists|j: int| 0 <= j < i && post[j].id@ == p@,
            None => true,
        } by {
            if i < pre.len() {
                assert(post[i] == pre[i]);
                match pre[i].info.recommender {
                    Some(p) => {
                        let w = choose|w: int| 0 <= w < i && pre[w].id@ == p@;
                        assert(post[w].id@ == p@);
                    },
                    None => {},
                }
            } else {
                assert(post[i] == e);
                match e.info.recommender {
                    Some(p) => {
                        let w = choose|w: int| 0 <= w < pre.len() && pre[w].id@ == p@;
                        assert(post[w].id@ == p@);
                    },
                    None => {},
                }
            }
        }
    }
}

/// Appending a record adds its delta to the ledger sum.
pub proof fn lemma_sum_push(h: Seq<PointsRecord>, r: PointsRecord)
    ensures
        sum_deltas(h.push(r)) == sum_deltas(h) + r.points_change as int,
{
    assert(h.push(r).drop_last() =~= h);
    assert(h.push(r).last() == r);
}

/// Replacing the record at `i` (same id, same parent edge) keeps id
/// uniqueness, the forest shape, and every other user's record and index.
pub proof fn lemma_update_entry(pre: Seq<UserEntry>, post: Seq<UserEntry>, i: int)
    requires
        unique_ids(pre),
        0 <= i < pre.len(),
        post.len() == pre.len(),
        forall|j: int| 0 <= j < pre.len() && j != i ==> post[j] == pre[j],
        post[i].id@ == pre[i].id@,
        post[i].info.recommender == pre[i].info.recommender,
    ensures
        unique_ids(post),
        parents_ok(pre) ==> parents_ok(post),
        forall|id: Seq<char>| #[trigger] contains_id(post, id) == contains_id(pre, id),
        idx_of(post, pre[i].id@) == i,
        idx_of(pre, pre[i].id@) == i,
        forall|id: Seq<char>|
            contains_id(pre, id) && id != pre[i].id@ ==> #[trigger] idx_of(post, id) == idx_of(
                pre,
                id,
            ),
{
    assert forall|j: int| 0 <= j < post.len() implies (#[trigger] post[j].id)@ == pre[j].id@ by {}
    assert forall|id: Seq<char>| #[trigger] contains_id(post, id) == contains_id(pre, id) by {
        if contains_id(pre, id) {
            let w = choose|w: int| 0 <= w < pre.len() && pre[w].id@ == id;
            assert(post[w].id@ == id);
        }
        if contains_id(post, id) {
            let w = choose|w: int| 0 <= w < post.len() && post[w].id@ == id;
            assert(pre[w].id@ == id);
        }
    }
    assert(contains_id(pre, pre[i].id@));
    lemma_idx_of(pre, pre[i].id@);
    assert(unique_ids(post));
    lemma_idx_of(post, pre[i].id@);
    assert(post[i].id@ == pre[i].id@);
    assert forall|id: Seq<char>| contains_id(pre, id) && id != pre[i].id@ implies #[trigger] idx_of(
        post,
        id,
    ) == idx_of(pre, id) by {
        lemma_idx_of(pre, id);
        lemma_idx_of(post, id);
        let w = idx_of(pre, id);
        assert(w != i);
        assert(post[w].id@ == id);
    }
    assert forall|j: int| 0 <= j < post.len() implies match #[trigger] post[j].info.recommender {
        Some(p) => parents_ok(pre) ==> exists|w: int| 0 <= w < j && post[w].id@ == p@,
        None => true,
    } by {
        if parents_ok(pre) {
            match post[j].info.recommender {
                Some(p) => {
                    assert(pre[j].info.recommender == Some(p));
                    let w = choose|w: int| 0 <= w < j && pre[w].id@ == p@;
                    assert(post[w].id@ == p@);
                },
                None => {},
            }
        }
    }
}

/// Two arenas with pointwise equal ids resolve every id alike.
pub proof fn lemma_ids_aligned(a: Seq<UserEntry>, b: Seq<UserEntry>)
    requires
        unique_ids(a),
        a.len() == b.len(),
        forall|j: int| 0 <= j < a.len() ==> (#[trigger] b[j].id)@ == a[j].id@,
    ensures
        unique_ids(b),
        forall|id: Seq<char>| #[trigger] contains_id(b, id) == contains_id(a, id),
        forall|id: Seq<char>|
            contains_id(a, id) ==> #[trigger] idx_of(b, id) == idx_of(a, id),
{
    assert forall|id: Seq<char>| #[trigger] contains_id(b, id) == contains_id(a, id) by {
        if contains_id(a, id) {
            let w = choose|w: int| 0 <= w < a.len() && a[w].id@ == id;
            assert(b[w].id@ == id);
        }
        if contains_id(b, id) {
            let w = choose|w: int| 0 <= w < b.len() && b[w].id@ == id;
            assert(a[w].id@ == id);
        }
    }
    assert forall|id: Seq<char>| contains_id(a, id) implies #[trigger] idx_of(b, id) == idx_of(
        a,
        id,
    ) by {
        lemma_idx_of(a, id);
        let w = idx_of(a, id);
        assert(b[w].id@ == id);
        assert(contains_id(b, id));
        let v = idx_of(b, id);
        assert(0 <= v < b.len() && b[v].id@ == id);
        assert(a[v].id@ == id);
        if v != w {
            assert(a[v].id@ != a[w].id@);
        }
    }
}

/// Under uniqueness, `idx_of` is the one index holding this id.
pub proof fn lemma_idx_of(users: Seq<UserEntry>, id: Seq<char>)
    requires
        unique_ids(users),
        contains_id(users, id),
    ensures
        0 <= idx_of(users, id) < users.len(),
        users[idx_of(users, id)].id@ == id,
        forall|j: int| 0 <= j < users.len() && users[j].id@ == id ==> j == idx_of(users, id),
{
    let i = idx_of(users, id);
    assert(0 <= i < users.len() && users[i].id@ == id);
}

/// The id sequence of an optional referrer argument.
pub open spec fn opt_view(o: Option<String>) -> Option<Seq<char>> {
    match o {
        Some(s) => Some(s@),
        None => None,
    }
}

/// Value equality of two user records up to container views.
pub open spec fn info_matches(a: UserInfo, b: UserInfo) -> bool {
    &&& a.recommender == b.recommender
    &&& a.direct_referrals@ == b.direct_referrals@
    &&& a.reward_points == b.reward_points
    &&& a.registered_at == b.registered_at
    &&& a.last_active_at == b.last_active_at
    &&& a.user_level == b.user_level
    &&& a.referral_stats == b.referral_stats
    &&& a.points_history@ == b.points_history@
    &&& a.status == b.status
}

/// Value equality of two rule sets up to container views.
pub open spec fn rules_match(a: PointsRules, b: PointsRules) -> bool {
    &&& a.direct_referral_rate == b.direct_referral_rate
    &&& a.level_2_rate == b.level_2_rate
    &&& a.level_3_rate == b.level_3_rate
    &&& a.base_points == b.base_points
    &&& a.level_multipliers@ == b.level_multipliers@
    &&& a.activity_rules@ == b.activity_rules@
}

pub(crate) fn clone_opt_string(o: &Option<String>) -> (r: Option<String>)
    ensures
        r == *o,
{
    match o {
        Some(s) => Some(s.clone()),
        None => None,
    }
}

fn clone_vec_string(v: &Vec<String>) -> (r: Vec<String>)
    ensures
        r@ == v@,
{
    let mut out: Vec<String> = Vec::new();
    let mut i: usize = 0;
    while i < v.len()
        invariant
            i <= v.len(),
            out@ =~= v@.take(i as int),
        decreases v.len() - i,
    {
        out.push(v[i].clone());
        i += 1;
    }
    proof {
        assert(out@ =~= v@);
    }
    out
}

impl PointsRecord {
    /// An equal copy of this record.
    pub fn duplicate(&self) -> (r: Self)
        ensures
            r == *self,
    {
        PointsRecord {
            points_change: self.points_change,
            reason: self.reason,
            timestamp: self.timestamp,
            related_user: clone_opt_string(&self.related_user),
            event_id: clone_opt_string(&self.event_id),
        }
    }
}

fn clone_history(v: &Vec<PointsRecord>) -> (r: Vec<PointsRecord>)
    ensures
        r@ == v@,
{
    let mut out: Vec<PointsRecord> = Vec::new();
    let mut i: usize = 0;
    while i < v.len()
        invariant
            i <= v.len(),
            out@ =~= v@.take(i as int),
        decreases v.len() - i,
    {
        out.push(v[i].duplicate());
        i += 1;
    }
    proof {
        assert(out@ =~= v@);
    }
    out
}

impl UserInfo {
    /// A copy of this record, equal field by field up to container views.
    pub fn duplicate(&self) -> (r: Self)
        ensures
            info_matches(r, *self),
    {
        UserInfo {
            recommender: clone_opt_string(&self.recommender),
            direct_referrals: clone_vec_string(&self.direct_referrals),
            reward_points: self.reward_points,
            registered_at: self.registered_at,
            last_active_at: self.last_active_at,
            user_level: self.user_level,
            referral_stats: self.referral_stats,
            points_history: clone_history(&self.points_history),
            status: self.status,
        }
    }
}

impl SystemConfig {
    /// An equal copy of this configuration.
    pub fn duplicate(&self) -> (r: Self)
        ensures
            r == *self,
    {
        SystemConfig {
            enabled: self.enabled,
            max_referral_depth: self.max_referral_depth,
            referral_cooldown: self.referral_cooldown,
            max_daily_referrals: self.max_daily_referrals,
            points_decay_period: self.points_decay_period,
            points_decay_rate: self.points_decay_rate,
            min_withdrawal_amount: self.min_withdrawal_amount,
            admin: self.admin.clone(),
            emergency_paused: self.emergency_paused,
        }
    }
}

impl ActivityRule {
    /// An equal copy of this rule.
    pub fn duplicate(&self) -> (r: Self)
        ensures
            r == *self,
    {
        ActivityRule {
            activity_type: self.activity_type.clone(),
            reward_points: self.reward_points,
            enabled: self.enabled,
            cooldown: self.cooldown,
        }
    }
}

fn clone_multipliers(v: &Vec<(UserLevel, FixedDec)>) -> (r: Vec<(UserLevel, FixedDec)>)
    ensures
        r@ == v@,
{
    let mut out: Vec<(UserLevel, FixedDec)> = Vec::new();
    let mut i: usize = 0;
    while i < v.len()
        invariant
            i <= v.len(),
            out@ =~= v@.take(i as int),
        decreases v.len() - i,
    {
        let (lvl, m) = v[i];
        out.push((lvl, m));
        i += 1;
    }
    proof {
        assert(out@ =~= v@);
    }
    out
}

fn clone_activity_rules(v: &Vec<ActivityRule>) -> (r: Vec<ActivityRule>)
    ensures
        r@ == v@,
{
    let mut out: Vec<ActivityRule> = Vec::new();
    let mut i: usize = 0;
    while i < v.len()
        invariant
            i <= v.len(),
            out@ =~= v@.take(i as int),
        decreases v.len() - i,
    {
        out.push(v[i].duplicate());
        i += 1;
    }
    proof {
        assert(out@ =~= v@);
    }
    out
}

impl PointsRules {
    /// A copy of these rules, equal field by field up to container views.
    pub fn duplicate(&self) -> (r: Self)
        ensures
            rules_match(r, *self),
    {
        PointsRules {
            direct_referral_rate: self.direct_referral_rate,
            level_2_rate: self.level_2_rate,
            level_3_rate: self.level_3_rate,
            base_points: self.base_points,
            level_multipliers: clone_multipliers(&self.level_multipliers),
            activity_rules: clone_activity_rules(&self.activity_rules),
        }
    }
}

/// A freshly registered record: no referrals, zero balance, empty history,
/// Bronze tier, active status.
pub open spec fn is_fresh_info(info: UserInfo, recommender: Option<Seq<char>>, now: u64) -> bool {
    &&& match (info.recommender, recommender) {
        (Some(a), Some(b)) => a@ == b,
        (None, None) => true,
        _ => false,
    }
    &&& info.direct_referrals@.len() == 0
    &&& info.reward_points == 0
    &&& info.registered_at == now
    &&& info.last_active_at == now
    &&& info.user_level == UserLevel::Bronze
    &&& info.referral_stats == (ReferralStats {
        total_referrals: 0,
        active_referrals: 0,
        monthly_referrals: 0,
        last_referral_time: None,
        success_rate: FixedDec { atomics: 0 },
    })
    &&& info.points_history@.len() == 0
    &&& info.status == UserStatus::Active
}

} // verus!
