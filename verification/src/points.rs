//! The points ledger and the leaderboard index: balance mutation with an
//! append-only history, withdrawal checks, the sorted secondary index, and
//! the multi-level reward cascade.

use vstd::prelude::*;
use crate::error::ContractError;
use crate::order::{lemma_lex_asym, lemma_lex_connex, lemma_lex_trans, str_lt};
use crate::decimal::{FixedDec, FIXED_SCALE};
use crate::state::{
    board_matches_users, board_precedes, board_sorted, board_unique, contains_id, has_board_entry,
    idx_of, opt_view, points_of, registered_active, spec_level_for, BoardEntry, PointsReason,
    PointsRecord, PointsRules, Registry, UserEntry, UserLevel, UserStatus,
};
use crate::user::find_user;

verus! {

/// Index of the board entry for `id` (meaningful when one exists).
pub open spec fn board_idx_of(board: Seq<BoardEntry>, id: Seq<char>) -> int {
    choose|k: int| #![trigger board[k].user] 0 <= k < board.len() && board[k].user@ == id
}

/// The board is sorted and lists each of `users` except possibly `id`, every
/// listed balance correct except possibly that of `id`.  This is the state
/// between a balance write and the index resynchronisation.
pub open spec fn board_matches_except(
    board: Seq<BoardEntry>,
    users: Seq<UserEntry>,
    id: Seq<char>,
) -> bool {
    &&& forall|k: int|
        0 <= k < board.len() ==> contains_id(users, #[trigger] board[k].user@) && (board[k].user@
            != id ==> board[k].points == points_of(users, board[k].user@))
    &&& forall|i: int|
        0 <= i < users.len() && (#[trigger] users[i].id)@ != id ==> has_board_entry(
            board,
            users[i].id@,
        )
}

proof fn lemma_precedes_connex(a: BoardEntry, b: BoardEntry)
    requires
        !(a.points == b.points && a.user@ == b.user@),
    ensures
        board_precedes(a, b) || board_precedes(b, a),
{
    if a.points == b.points {
        lemma_lex_connex(a.user@, b.user@);
    }
}

proof fn lemma_precedes_asym(a: BoardEntry, b: BoardEntry)
    ensures
        !(board_precedes(a, b) && board_precedes(b, a)),
{
    lemma_lex_asym(a.user@, b.user@);
}

proof fn lemma_precedes_trans(a: BoardEntry, b: BoardEntry, c: BoardEntry)
    requires
        board_precedes(a, b),
        board_precedes(b, c),
    ensures
        board_precedes(a, c),
{
    if a.points == b.points && b.points == c.points {
        lemma_lex_trans(a.user@, b.user@, c.user@);
    }
}

/// Whether `a` comes before `b` in the index order.
fn entry_precedes(a: &BoardEntry, b: &BoardEntry) -> (r: bool)
    ensures
        r == board_precedes(*a, *b),
{
    if a.points > b.points {
        true
    } else if a.points == b.points {
        str_lt(a.user.as_str(), b.user.as_str())
    } else {
        false
    }
}

/// Removes the entry of `user` from the index, if it has one.
#[verifier::loop_isolation(false)]
fn board_remove(board: &mut Vec<BoardEntry>, user: &str)
    requires
        board_sorted(old(board)@),
        board_unique(old(board)@),
    ensures
        board_sorted(final(board)@),
        board_unique(final(board)@),
        !has_board_entry(final(board)@, user@),
        has_board_entry(old(board)@, user@) ==> final(board)@ == old(board)@.remove(
            board_idx_of(old(board)@, user@),
        ),
        !has_board_entry(old(board)@, user@) ==> final(board)@ == old(board)@,
{
    let ghost pre = board@;
    let mut i: usize = 0;
    let n = board.len();
    while i < n
        invariant
            board@ == pre,
            n == pre.len(),
            i <= n,
            forall|k: int| #![trigger pre[k].user] 0 <= k < i ==> pre[k].user@ != user@,
        decreases n - i,
    {
        if crate::order::str_eq(board[i].user.as_str(), user) {
            proof {
                assert(0 <= i < pre.len() && pre[i as int].user@ == user@);
                assert(has_board_entry(pre, user@));
                let k = board_idx_of(pre, user@);
                assert(0 <= k < pre.len() && pre[k].user@ == user@);
                if k != i as int {
                    assert(pre[k].user@ != pre[i as int].user@);
                }
            }
            board.remove(i);
            proof {
                let post = board@;
                let k = i as int;
                assert(post == pre.remove(k));
                assert forall|a: int, b: int| 0 <= a < b < post.len() implies board_precedes(
                    post[a],
                    post[b],
                ) && post[a].user@ != post[b].user@ by {
                    let a0 = if a < k { a } else { a + 1 };
                    let b0 = if b < k { b } else { b + 1 };
                    assert(post[a] == pre[a0]);
                    assert(post[b] == pre[b0]);
                }
                assert forall|l: int| 0 <= l < post.len() implies post[l].user@ != user@ by {
                    let l0 = if l < k { l } else { l + 1 };
                    assert(post[l] == pre[l0]);
                    if l0 != k {
                        assert(pre[l0].user@ != pre[k].user@);
                    }
                }
            }
            return ;
        }
        i += 1;
    }
    proof {
        assert(!has_board_entry(board@, user@));
    }
}

/// Inserts an entry for a user not yet listed, keeping the index sorted.
#[verifier::loop_isolation(false)]
fn board_insert(board: &mut Vec<BoardEntry>, entry: BoardEntry)
    requires
        board_sorted(old(board)@),
        board_unique(old(board)@),
        !has_board_entry(old(board)@, entry.user@),
    ensures
        board_sorted(final(board)@),
        board_unique(final(board)@),
        exists|p: int|
            0 <= p <= old(board)@.len() && final(board)@ == #[trigger] old(board)@.insert(p, entry),
{
    let ghost pre = board@;
    let mut i: usize = 0;
    let n = board.len();
    while i < n && entry_precedes(&board[i], &entry)
        invariant
            board@ == pre,
            n == pre.len(),
            i <= n,
            forall|k: int| 0 <= k < i ==> board_precedes(#[trigger] pre[k], entry),
        decreases n - i,
    {
        i += 1;
    }
    proof {
        if (i as int) < pre.len() {
            // The scan stopped before `board[i]`, so the new entry precedes it.
            assert(pre[i as int].user@ != entry.user@);
            lemma_precedes_connex(pre[i as int], entry);
        }
    }
    board.insert(i, entry);
    proof {
        let post = board@;
        let p = i as int;
        assert(post == pre.insert(p, entry));
        assert forall|a: int, b: int| 0 <= a < b < post.len() implies board_precedes(
            post[a],
            post[b],
        ) && post[a].user@ != post[b].user@ by {
            if a < p && b < p {
                assert(post[a] == pre[a] && post[b] == pre[b]);
            } else if a < p && b == p {
                assert(post[a] == pre[a] && post[b] == entry);
            } else if a < p && b > p {
                assert(post[a] == pre[a] && post[b] == pre[b - 1]);
            } else if a == p && b > p {
                assert(post[a] == entry && post[b] == pre[b - 1]);
                if p < b - 1 {
                    lemma_precedes_trans(entry, pre[p], pre[b - 1]);
                }
                assert(pre[b - 1].user@ != entry.user@);
            } else {
                assert(post[a] == pre[a - 1] && post[b] == pre[b - 1]);
            }
            if post[a].user@ == post[b].user@ {
                lemma_precedes_asym(post[a], post[b]);
            }
        }
    }
}

impl Registry {
    /// Upsert into the leaderboard index: removes any stale entry of `user`
    /// and inserts `(points, user)` at its ordered position, re-establishing
    /// the exact correspondence between index and arena.
    pub fn update_leaderboard(&mut self, user: &str, points: u128) -> (r: Result<
        (),
        crate::error::ContractError,
    >)
        requires
            board_sorted(old(self).leaderboard@),
            board_unique(old(self).leaderboard@),
            crate::state::unique_ids(old(self).users@),
            contains_id(old(self).users@, user@),
            points == points_of(old(self).users@, user@),
            board_matches_except(old(self).leaderboard@, old(self).users@, user@),
        ensures
            final(self).users == old(self).users,
            final(self).config == old(self).config,
            final(self).rules == old(self).rules,
            final(self).reentrancy_lock == old(self).reentrancy_lock,
            board_sorted(final(self).leaderboard@),
            board_unique(final(self).leaderboard@),
            board_matches_users(final(self).leaderboard@, final(self).users@),
            r is Ok,
    {
        let ghost pre = self.leaderboard@;
        let ghost users = self.users@;
        board_remove(&mut self.leaderboard, user);
        let ghost mid = self.leaderboard@;
        proof {
            // Every surviving entry is a pre entry for a different user, and
            // every other user keeps an entry.
            if has_board_entry(pre, user@) {
                let rix = board_idx_of(pre, user@);
                assert(0 <= rix < pre.len() && pre[rix].user@ == user@);
                assert(mid == pre.remove(rix));
                assert forall|k: int| 0 <= k < mid.len() implies contains_id(
                    users,
                    #[trigger] mid[k].user@,
                ) && mid[k].user@ != user@ && mid[k].points == points_of(users, mid[k].user@) by {
                    let k0 = if k < rix { k } else { k + 1 };
                    assert(mid[k] == pre[k0]);
                }
                assert forall|i: int|
                    0 <= i < users.len() && (#[trigger] users[i].id)@ != user@ implies
                    has_board_entry(mid, users[i].id@) by {
                    assert(has_board_entry(pre, users[i].id@));
                    let w = choose|k: int| #![trigger pre[k].user]
                        0 <= k < pre.len() && pre[k].user@ == users[i].id@;
                    assert(w != rix);
                    let w2 = if w < rix { w } else { w - 1 };
                    assert(mid[w2] == pre[w]);
                }
            } else {
                assert(mid == pre);
                assert forall|k: int| 0 <= k < mid.len() implies contains_id(
                    users,
                    #[trigger] mid[k].user@,
                ) && mid[k].user@ != user@ && mid[k].points == points_of(users, mid[k].user@) by {
                    assert(!(0 <= k < pre.len() && pre[k].user@ == user@));
                }
            }
        }
        let new_entry = BoardEntry { points, user: user.to_owned() };
        let ghost ge = new_entry;
        board_insert(&mut self.leaderboard, new_entry);
        proof {
            let post = self.leaderboard@;
            let p = choose|p: int| 0 <= p <= mid.len() && post == #[trigger] mid.insert(p, ge);
            assert(0 <= p <= mid.len() && ge.points == points && ge.user@ == user@ && post
                == mid.insert(p, ge));
            assert forall|k: int| 0 <= k < post.len() implies contains_id(
                users,
                #[trigger] post[k].user@,
            ) && post[k].points == points_of(users, post[k].user@) by {
                lemma_post_entry(pre, mid, post, users, user@, points, k);
            }
            assert forall|i: int| 0 <= i < users.len() implies #[trigger] has_board_entry(
                post,
                users[i].id@,
            ) by {
                lemma_post_cover(pre, mid, post, users, user@, points, i);
            }
        }
        Ok(())
    }
}

/// What a successful or failed point allocation guarantees: credited
/// balance, one appended history record, recomputed tier, and an untouched
/// registry on failure.
pub open spec fn allocate_post(
    pre: Registry,
    post: Registry,
    r: Result<(), ContractError>,
    user: Seq<char>,
    points: u128,
    reason: PointsReason,
    related: Option<Seq<char>>,
    event: Option<Seq<char>>,
    now: u64,
) -> bool {
    &&& post.config == pre.config
    &&& post.rules == pre.rules
    &&& post.reentrancy_lock == pre.reentrancy_lock
    &&& match r {
        Ok(()) => {
            let i = idx_of(pre.users@, user);
            let a = pre.users@[i].info;
            let b = post.users@[i].info;
            &&& registered_active(pre.users@, user)
            &&& post.users@.len() == pre.users@.len()
            &&& forall|j: int|
                0 <= j < pre.users@.len() && j != i ==> post.users@[j] == pre.users@[j]
            &&& post.users@[i].id == pre.users@[i].id
            &&& crate::state::same_but_points(b, a)
            &&& b.reward_points == a.reward_points + points
            &&& crate::state::history_extended(b, a, points as int, reason, related, event, now)
            &&& b.user_level == spec_level_for(a.referral_stats.total_referrals)
        },
        Err(e) => {
            &&& !registered_active(pre.users@, user)
            &&& post == pre
            &&& (e matches ContractError::UserNotRegistered { user: u } && u@ == user)
        },
    }
}

/// What a withdrawal guarantees: `InsufficientPoints` exactly when the
/// amount exceeds the balance, a debit plus one manual-adjustment record on
/// success, and an untouched registry on failure.
pub open spec fn withdraw_post(
    pre: Registry,
    post: Registry,
    r: Result<(), ContractError>,
    user: Seq<char>,
    amount: u128,
    now: u64,
) -> bool {
    &&& post.config == pre.config
    &&& post.rules == pre.rules
    &&& post.reentrancy_lock == pre.reentrancy_lock
    &&& match r {
        Ok(()) => {
            let i = idx_of(pre.users@, user);
            let a = pre.users@[i].info;
            let b = post.users@[i].info;
            &&& contains_id(pre.users@, user)
            &&& amount <= a.reward_points
            &&& post.users@.len() == pre.users@.len()
            &&& forall|j: int|
                0 <= j < pre.users@.len() && j != i ==> post.users@[j] == pre.users@[j]
            &&& post.users@[i].id == pre.users@[i].id
            &&& crate::state::same_but_points(b, a)
            &&& b.user_level == a.user_level
            &&& b.reward_points == a.reward_points - amount
            &&& crate::state::history_extended(
                b,
                a,
                -(amount as int),
                PointsReason::ManualAdjustment,
                None,
                Some("withdrawal"@),
                now,
            )
        },
        Err(e) => {
            &&& post == pre
            &&& match e {
                ContractError::UserNotRegistered { user: u } => !contains_id(pre.users@, user)
                    && u@ == user,
                ContractError::InsufficientPoints { required, available } => {
                    &&& contains_id(pre.users@, user)
                    &&& amount > points_of(pre.users@, user)
                    &&& required == amount
                    &&& available == points_of(pre.users@, user)
                },
                _ => false,
            }
        },
    }
}

impl Registry {
    /// Credits `points` to an active user: appends a history record, raises
    /// the balance, recomputes the tier from the referral count, and
    /// resynchronises the leaderboard.  Fails with `UserNotRegistered` when
    /// the user is absent or not active, leaving everything unchanged.
    #[verifier::rlimit(50)]
    pub fn allocate_points_to_user(
        &mut self,
        user: &str,
        points: u128,
        reason: PointsReason,
        related_user: Option<String>,
        event_id: Option<String>,
        now: u64,
    ) -> (r: Result<(), ContractError>)
        requires
            old(self).wf(),
            points <= i128::MAX as u128,
            registered_active(old(self).users@, user@) ==> points_of(old(self).users@, user@)
                + points <= u128::MAX,
        ensures
            final(self).wf(),
            allocate_post(
                *old(self),
                *final(self),
                r,
                user@,
                points,
                reason,
                opt_view(related_user),
                opt_view(event_id),
                now,
            ),
    {
        match find_user(&self.users, user) {
            Some(i) => {
                proof {
                    crate::state::lemma_idx_of(self.users@, user@);
                }
                if !(self.users[i].info.status == UserStatus::Active) {
                    return Err(ContractError::UserNotRegistered { user: user.to_owned() });
                }
                let ghost pre_users = self.users@;
                let e = crate::user::user_at_mut(&mut self.users, i);
                e.info.reward_points = e.info.reward_points + points;
                e.info.points_history.push(
                    PointsRecord {
                        points_change: points as i128,
                        reason,
                        timestamp: now,
                        related_user,
                        event_id,
                    },
                );
                let count = e.info.referral_stats.total_referrals;
                e.info.user_level = UserLevel::from_referral_count(count);
                let new_points = e.info.reward_points;
                proof {
                    crate::state::lemma_update_entry(pre_users, self.users@, i as int);
                    crate::state::lemma_sum_push(
                        pre_users[i as int].info.points_history@,
                        self.users@[i as int].info.points_history@.last(),
                    );
                    assert(self.users@[i as int].info.points_history@ =~= pre_users[i as int].info.points_history@.push(
                        self.users@[i as int].info.points_history@.last(),
                    ));
                    assert(self.users@[i as int].info.points_history@.drop_last()
                        =~= pre_users[i as int].info.points_history@);
                    assert(crate::state::ledger_ok(self.users@)) by {
                        assert forall|j: int| 0 <= j < self.users@.len() implies self.users@[j].info.reward_points
                            as int == crate::state::sum_deltas(
                            (#[trigger] self.users@[j].info).points_history@,
                        ) by {
                            if j != i as int {
                                assert(self.users@[j] == pre_users[j]);
                            }
                        }
                    }
                    assert(board_matches_except(self.leaderboard@, self.users@, user@)) by {
                        assert forall|k: int| 0 <= k < self.leaderboard@.len() implies contains_id(
                            self.users@,
                            #[trigger] self.leaderboard@[k].user@,
                        ) && (self.leaderboard@[k].user@ != user@
                            ==> self.leaderboard@[k].points == points_of(
                            self.users@,
                            self.leaderboard@[k].user@,
                        )) by {
                            let u = self.leaderboard@[k].user@;
                            assert(contains_id(pre_users, u));
                            if u != user@ {
                                assert(idx_of(self.users@, u) == idx_of(pre_users, u));
                                assert(self.users@[idx_of(pre_users, u)]
                                    == pre_users[idx_of(pre_users, u)]);
                            }
                        }
                        assert forall|j: int|
                            0 <= j < self.users@.len() && (#[trigger] self.users@[j].id)@ != user@
                            implies has_board_entry(self.leaderboard@, self.users@[j].id@) by {
                            assert(self.users@[j].id@ == pre_users[j].id@);
                        }
                    }
                }
                let res = self.update_leaderboard(user, new_points);
                proof {
                    if res is Err {
                        assert(false);
                    }
                }
                Ok(())
            },
            None => Err(ContractError::UserNotRegistered { user: user.to_owned() }),
        }
    }

    /// Debits `amount` from the balance of `user`, appending a manual
    /// adjustment record and resynchronising the leaderboard.  Fails with
    /// `InsufficientPoints` exactly when `amount` exceeds the balance, and
    /// with `UserNotRegistered` when the user is absent; on any failure the
    /// whole state is unchanged.
    #[verifier::rlimit(50)]
    pub fn withdraw_points(&mut self, user: &str, amount: u128, now: u64) -> (r: Result<
        (),
        ContractError,
    >)
        requires
            old(self).wf(),
            amount <= i128::MAX as u128,
        ensures
            final(self).wf(),
            withdraw_post(*old(self), *final(self), r, user@, amount, now),
    {
        match find_user(&self.users, user) {
            Some(i) => {
                proof {
                    crate::state::lemma_idx_of(self.users@, user@);
                }
                let available = self.users[i].info.reward_points;
                if available < amount {
                    return Err(ContractError::InsufficientPoints { required: amount, available });
                }
                let ghost pre_users = self.users@;
                let e = crate::user::user_at_mut(&mut self.users, i);
                e.info.reward_points = e.info.reward_points - amount;
                e.info.points_history.push(
                    PointsRecord {
                        points_change: -(amount as i128),
                        reason: PointsReason::ManualAdjustment,
                        timestamp: now,
                        related_user: None,
                        event_id: Some("withdrawal".to_owned()),
                    },
                );
                let new_points = e.info.reward_points;
                proof {
                    crate::state::lemma_update_entry(pre_users, self.users@, i as int);
                    crate::state::lemma_sum_push(
                        pre_users[i as int].info.points_history@,
                        self.users@[i as int].info.points_history@.last(),
                    );
                    assert(self.users@[i as int].info.points_history@ =~= pre_users[i as int].info.points_history@.push(
                        self.users@[i as int].info.points_history@.last(),
                    ));
                    assert(self.users@[i as int].info.points_history@.drop_last()
                        =~= pre_users[i as int].info.points_history@);
                    assert(crate::state::ledger_ok(self.users@)) by {
                        assert forall|j: int| 0 <= j < self.users@.len() implies self.users@[j].info.reward_points
                            as int == crate::state::sum_deltas(
                            (#[trigger] self.users@[j].info).points_history@,
                        ) by {
                            if j != i as int {
                                assert(self.users@[j] == pre_users[j]);
                            }
                        }
                    }
                    assert(board_matches_except(self.leaderboard@, self.users@, user@)) by {
                        assert forall|k: int| 0 <= k < self.leaderboard@.len() implies contains_id(
                            self.users@,
                            #[trigger] self.leaderboard@[k].user@,
                        ) && (self.leaderboard@[k].user@ != user@
                            ==> self.leaderboard@[k].points == points_of(
                            self.users@,
                            self.leaderboard@[k].user@,
                        )) by {
                            let u = self.leaderboard@[k].user@;
                            assert(contains_id(pre_users, u));
                            if u != user@ {
                                assert(idx_of(self.users@, u) == idx_of(pre_users, u));
                                assert(self.users@[idx_of(pre_users, u)]
                                    == pre_users[idx_of(pre_users, u)]);
                            }
                        }
                        assert forall|j: int|
                            0 <= j < self.users@.len() && (#[trigger] self.users@[j].id)@ != user@
                            implies has_board_entry(self.leaderboard@, self.users@[j].id@) by {
                            assert(self.users@[j].id@ == pre_users[j].id@);
                        }
                    }
                }
                let res = self.update_leaderboard(user, new_points);
                proof {
                    if res is Err {
                        assert(false);
                    }
                }
                Ok(())
            },
            None => Err(ContractError::UserNotRegistered { user: user.to_owned() }),
        }
    }
}

/// The ledger-consistency law: in any well-formed registry — and every
/// operation of this engine both assumes and re-establishes well-formedness
/// — each user's balance equals the sum of that user's history deltas since
/// creation.
pub proof fn lemma_balance_is_history_sum(reg: Registry, i: int)
    requires
        reg.wf(),
        0 <= i < reg.users@.len(),
    ensures
        reg.users@[i].info.reward_points as int == crate::state::sum_deltas(
            reg.users@[i].info.points_history@,
        ),
{
}

/// The configured rate of a cascade level: levels one to three carry the
/// three configured rates, deeper levels none.
pub open spec fn spec_level_rate(rules: PointsRules, level: int) -> FixedDec {
    if level == 1 {
        rules.direct_referral_rate
    } else if level == 2 {
        rules.level_2_rate
    } else if level == 3 {
        rules.level_3_rate
    } else {
        FixedDec { atomics: 0 }
    }
}

/// First matching tier multiplier, 1.0 for a tier absent from the table.
pub open spec fn spec_multiplier_of(mults: Seq<(UserLevel, FixedDec)>, level: UserLevel) -> FixedDec
    decreases mults.len(),
{
    if mults.len() == 0 {
        FixedDec { atomics: FIXED_SCALE }
    } else if mults[0].0 == level {
        mults[0].1
    } else {
        spec_multiplier_of(mults.drop_first(), level)
    }
}

/// The reward of the ancestor at arena index `i` on cascade level `level`:
/// the base scaled by the level rate, then by the ancestor's tier
/// multiplier, truncating toward zero at each step.
pub open spec fn spec_reward(
    users: Seq<UserEntry>,
    rules: PointsRules,
    base: u128,
    level: int,
    i: int,
) -> int {
    let r1 = crate::decimal::mul_floor_spec(
        base as int,
        spec_level_rate(rules, level).atomics as int,
    );
    crate::decimal::mul_floor_spec(
        r1,
        spec_multiplier_of(rules.level_multipliers@, users[i].info.user_level).atomics as int,
    )
}

/// The cascade plan from arena index `i` at `level`: one `(ancestor index,
/// reward)` pair per level whose rate and computed reward are both positive,
/// walking parent edges until the chain ends or the depth cap is passed.
pub open spec fn cascade_plan(
    users: Seq<UserEntry>,
    rules: PointsRules,
    base: u128,
    i: int,
    level: int,
    max_depth: int,
) -> Seq<(int, int)>
    decreases max_depth + 1 - level,
{
    if level > max_depth || level < 1 || !(0 <= i < users.len()) {
        Seq::empty()
    } else {
        match users[i].info.recommender {
            None => Seq::empty(),
            Some(p) => {
                let pi = idx_of(users, p@);
                let rest = cascade_plan(users, rules, base, pi, level + 1, max_depth);
                if spec_level_rate(rules, level).atomics > 0 {
                    let rw = spec_reward(users, rules, base, level, pi);
                    if rw > 0 {
                        seq![(pi, rw)] + rest
                    } else {
                        rest
                    }
                } else {
                    rest
                }
            },
        }
    }
}

/// No step of the cascade from `i` at `level` overflows: each intermediate
/// scaled amount fits a balance, each reward fits a signed ledger delta, and
/// each credited balance stays representable.  (These are the inputs on
/// which the fixed-point arithmetic is defined at all.)
pub open spec fn cascade_ok(
    users: Seq<UserEntry>,
    rules: PointsRules,
    base: u128,
    i: int,
    level: int,
    max_depth: int,
) -> bool
    decreases max_depth + 1 - level,
{
    if level > max_depth || level < 1 || !(0 <= i < users.len()) {
        true
    } else {
        match users[i].info.recommender {
            None => true,
            Some(p) => {
                let pi = idx_of(users, p@);
                let rest = cascade_ok(users, rules, base, pi, level + 1, max_depth);
                if spec_level_rate(rules, level).atomics > 0 {
                    let r1 = crate::decimal::mul_floor_spec(
                        base as int,
                        spec_level_rate(rules, level).atomics as int,
                    );
                    let rw = spec_reward(users, rules, base, level, pi);
                    &&& r1 <= u128::MAX as int
                    &&& rw <= i128::MAX as int
                    &&& users[pi].info.reward_points + rw <= u128::MAX as int
                    &&& rest
                } else {
                    rest
                }
            },
        }
    }
}

/// The whole cascade plan of a registry for a referee.
pub open spec fn cascade_plan_of(reg: Registry, referee: Seq<char>, base: u128) -> Seq<(int, int)> {
    if contains_id(reg.users@, referee) {
        cascade_plan(
            reg.users@,
            reg.rules,
            base,
            idx_of(reg.users@, referee),
            1,
            reg.config.max_referral_depth as int,
        )
    } else {
        Seq::empty()
    }
}

/// The overflow precondition of the whole cascade of a registry.
pub open spec fn cascade_ok_of(reg: Registry, referee: Seq<char>, base: u128) -> bool {
    contains_id(reg.users@, referee) ==> cascade_ok(
        reg.users@,
        reg.rules,
        base,
        idx_of(reg.users@, referee),
        1,
        reg.config.max_referral_depth as int,
    )
}

/// Every planned ancestor is active.
pub open spec fn plan_all_active(users: Seq<UserEntry>, plan: Seq<(int, int)>) -> bool {
    forall|k: int|
        0 <= k < plan.len() ==> users[#[trigger] plan[k].0].info.status == UserStatus::Active
}

/// Some arena index appears in the plan.
pub open spec fn plan_contains_idx(plan: Seq<(int, int)>, j: int) -> bool {
    exists|k: int| 0 <= k < plan.len() && #[trigger] plan[k].0 == j
}

/// The effect of applying a cascade plan: each planned ancestor credited by
/// its reward with one referral-reward record appended and its tier
/// recomputed; everyone else untouched.
pub open spec fn cascade_applied(
    preu: Seq<UserEntry>,
    postu: Seq<UserEntry>,
    plan: Seq<(int, int)>,
    reason: PointsReason,
    referee: Seq<char>,
    event: Option<Seq<char>>,
    now: u64,
) -> bool {
    &&& postu.len() == preu.len()
    &&& forall|j: int|
        0 <= j < preu.len() && !plan_contains_idx(plan, j) ==> postu[j] == #[trigger] preu[j]
    &&& forall|k: int|
        0 <= k < plan.len() ==> {
            let j = (#[trigger] plan[k]).0;
            let a = preu[j].info;
            let b = postu[j].info;
            &&& postu[j].id == preu[j].id
            &&& crate::state::same_but_points(b, a)
            &&& b.reward_points == a.reward_points + plan[k].1
            &&& crate::state::history_extended(b, a, plan[k].1, reason, Some(referee), event, now)
            &&& b.user_level == spec_level_for(a.referral_stats.total_referrals)
        }
}

/// The rate of a cascade level.
fn level_rate(rules: &PointsRules, level: u64) -> (r: FixedDec)
    ensures
        r == spec_level_rate(*rules, level as int),
{
    if level == 1 {
        rules.direct_referral_rate
    } else if level == 2 {
        rules.level_2_rate
    } else if level == 3 {
        rules.level_3_rate
    } else {
        FixedDec { atomics: 0 }
    }
}

/// First matching multiplier of the table, 1.0 when the tier is absent.
#[verifier::loop_isolation(false)]
fn multiplier_of(mults: &Vec<(UserLevel, FixedDec)>, level: UserLevel) -> (r: FixedDec)
    ensures
        r == spec_multiplier_of(mults@, level),
{
    let mut i: usize = 0;
    proof {
        assert(mults@.skip(0) =~= mults@);
    }
    while i < mults.len()
        invariant
            i <= mults@.len(),
            spec_multiplier_of(mults@, level) == spec_multiplier_of(mults@.skip(i as int), level),
        decreases mults@.len() - i,
    {
        let (lv, m) = mults[i];
        proof {
            assert(mults@.skip(i as int)[0] == mults@[i as int]);
            assert(mults@.skip(i as int).drop_first() =~= mults@.skip(i as int + 1));
        }
        if lv == level {
            return m;
        }
        i += 1;
    }
    proof {
        assert(mults@.skip(i as int).len() == 0);
    }
    FixedDec { atomics: FIXED_SCALE }
}

/// The exec-level view of a computed plan.
pub open spec fn plan_view(v: Seq<(usize, u128)>) -> Seq<(int, int)> {
    v.map_values(|t: (usize, u128)| (t.0 as int, t.1 as int))
}

/// The cascade was rejected on its first planned ancestor that is not
/// active, reported by id.
pub open spec fn plan_first_inactive_err(
    users: Seq<UserEntry>,
    splan: Seq<(int, int)>,
    e: ContractError,
) -> bool {
    exists|k: int| #![trigger splan[k]]
        0 <= k < splan.len() && users[splan[k].0].info.status != UserStatus::Active && (forall|
            l: int,
        |
            0 <= l < k ==> users[(#[trigger] splan[l]).0].info.status == UserStatus::Active) && (e
            matches ContractError::UserNotRegistered { user: u } && u@ == users[splan[k].0].id@)
}

/// Under the overflow precondition, every planned reward is positive, fits
/// a signed delta, credits without overflow, and the planned indices
/// strictly descend (so every ancestor is rewarded at most once).
proof fn lemma_plan_props(
    users: Seq<UserEntry>,
    rules: PointsRules,
    base: u128,
    i: int,
    level: int,
    max_depth: int,
)
    requires
        crate::state::unique_ids(users),
        crate::state::parents_ok(users),
        cascade_ok(users, rules, base, i, level, max_depth),
    ensures
        ({
            let plan = cascade_plan(users, rules, base, i, level, max_depth);
            &&& forall|k: int|
                0 <= k < plan.len() ==> 0 <= (#[trigger] plan[k]).0 < i && 0 < plan[k].1
                    <= i128::MAX as int && users[plan[k].0].info.reward_points + plan[k].1
                    <= u128::MAX as int
            &&& forall|k: int, l: int| 0 <= k < l < plan.len() ==> plan[l].0 < plan[k].0
        }),
    decreases max_depth + 1 - level,
{
    if level > max_depth || level < 1 || !(0 <= i < users.len()) {
    } else {
        match users[i].info.recommender {
            None => {},
            Some(p) => {
                let pi = crate::referral::lemma_parent_index(users, i);
                lemma_plan_props(users, rules, base, pi, level + 1, max_depth);
                let plan = cascade_plan(users, rules, base, i, level, max_depth);
                let rest = cascade_plan(users, rules, base, pi, level + 1, max_depth);
                if spec_level_rate(rules, level).atomics > 0 && spec_reward(
                    users,
                    rules,
                    base,
                    level,
                    pi,
                ) > 0 {
                    assert(plan == seq![(pi, spec_reward(users, rules, base, level, pi))] + rest);
                    assert forall|k: int| 0 <= k < plan.len() implies 0 <= (#[trigger] plan[k]).0
                        < i && 0 < plan[k].1 <= i128::MAX as int
                        && users[plan[k].0].info.reward_points + plan[k].1 <= u128::MAX as int by {
                        if k == 0 {
                            assert(plan[0] == (pi, spec_reward(users, rules, base, level, pi)));
                        } else {
                            assert(plan[k] == rest[k - 1]);
                        }
                    }
                    assert forall|k: int, l: int| 0 <= k < l < plan.len() implies plan[l].0
                        < plan[k].0 by {
                        if k == 0 {
                            assert(plan[l] == rest[l - 1]);
                        } else {
                            assert(plan[k] == rest[k - 1] && plan[l] == rest[l - 1]);
                        }
                    }
                } else {
                    assert(plan == rest);
                    assert forall|k: int| 0 <= k < plan.len() implies 0 <= (#[trigger] plan[k]).0
                        < i && 0 < plan[k].1 <= i128::MAX as int
                        && users[plan[k].0].info.reward_points + plan[k].1 <= u128::MAX as int by {
                        assert(plan[k] == rest[k]);
                    }
                }
            },
        }
    }
}

impl Registry {
    /// Read-only first phase of the cascade: walks the ancestor chain and
    /// computes the whole reward plan, rejecting it on the first planned
    /// ancestor that is not active (so that nothing is mutated unless every
    /// allocation can commit).
    #[verifier::rlimit(100)]
    #[verifier::loop_isolation(false)]
    fn build_cascade_plan(&self, referee: &str, base: u128) -> (r: Result<
        Vec<(usize, u128)>,
        ContractError,
    >)
        requires
            self.wf(),
            cascade_ok_of(*self, referee@, base),
        ensures
            ({
                let splan = cascade_plan_of(*self, referee@, base);
                match r {
                    Ok(plan) => plan_view(plan@) == splan && plan_all_active(self.users@, splan),
                    Err(e) => plan_first_inactive_err(self.users@, splan, e),
                }
            }),
    {
        let ghost users = self.users@;
        let maxd: u64 = self.config.max_referral_depth as u64;
        let mut plan: Vec<(usize, u128)> = Vec::new();
        let mut cur: usize;
        match find_user(&self.users, referee) {
            Some(i) => {
                cur = i;
                proof {
                    crate::state::lemma_idx_of(users, referee@);
                }
            },
            None => {
                proof {
                    assert(plan_view(plan@) =~= cascade_plan_of(*self, referee@, base));
                }
                return Ok(plan);
            },
        }
        let ghost splan = cascade_plan_of(*self, referee@, base);
        let mut level: u64 = 1;
        proof {
            assert(splan =~= plan_view(plan@) + cascade_plan(
                users,
                self.rules,
                base,
                cur as int,
                1,
                maxd as int,
            ));
        }
        while level <= maxd
            invariant
                1 <= level <= maxd + 1,
                0 <= cur < users.len(),
                splan == plan_view(plan@) + cascade_plan(
                    users,
                    self.rules,
                    base,
                    cur as int,
                    level as int,
                    maxd as int,
                ),
                cascade_ok(users, self.rules, base, cur as int, level as int, maxd as int),
                forall|k: int|
                    0 <= k < plan@.len() ==> users[(#[trigger] plan@[k]).0 as int].info.status
                        == UserStatus::Active,
            decreases maxd + 1 - level,
        {
            let ghost rest = cascade_plan(
                users,
                self.rules,
                base,
                cur as int,
                level as int,
                maxd as int,
            );
            let parent = match &self.users[cur].info.recommender {
                Some(p) => p.clone(),
                None => {
                    proof {
                        assert(rest =~= Seq::<(int, int)>::empty());
                        assert(splan =~= plan_view(plan@));
                    }
                    return Ok(plan);
                },
            };
            let pi = match find_user(&self.users, parent.as_str()) {
                Some(j) => j,
                None => {
                    // Unreachable: every parent edge resolves in a
                    // well-formed arena.
                    proof {
                        let j = crate::referral::lemma_parent_index(users, cur as int);
                        assert(false);
                    }
                    return Err(ContractError::SystemError {
                        message: "dangling parent edge".to_owned(),
                    });
                },
            };
            proof {
                let j = crate::referral::lemma_parent_index(users, cur as int);
                crate::state::lemma_idx_of(users, parent@);
                assert(pi as int == j);
            }
            let ghost rest_next = cascade_plan(
                users,
                self.rules,
                base,
                pi as int,
                level as int + 1,
                maxd as int,
            );
            let rate = level_rate(&self.rules, level);
            if !rate.is_zero() {
                let r1 = match crate::decimal::mul_floor(base, rate) {
                    Some(v) => v,
                    None => {
                        // Unreachable: excluded by the overflow precondition.
                        proof {
                            assert(false);
                        }
                        return Err(ContractError::SystemError {
                            message: "reward out of range".to_owned(),
                        });
                    },
                };
                let mult = multiplier_of(&self.rules.level_multipliers, self.users[pi].info.user_level);
                let rw = match crate::decimal::mul_floor(r1, mult) {
                    Some(v) => v,
                    None => {
                        // Unreachable: excluded by the overflow precondition.
                        proof {
                            assert(spec_reward(users, self.rules, base, level as int, pi as int)
                                > u128::MAX as int);
                            assert(false);
                        }
                        return Err(ContractError::SystemError {
                            message: "reward out of range".to_owned(),
                        });
                    },
                };
                proof {
                    assert(rw as int == spec_reward(users, self.rules, base, level as int, pi as int));
                    assert(rest == seq![(pi as int, rw as int)] + rest_next || rest == rest_next);
                }
                if rw > 0 {
                    proof {
                        assert(rest == seq![(pi as int, rw as int)] + rest_next);
                        assert(rest[0] == (pi as int, rw as int));
                    }
                    if !(self.users[pi].info.status == UserStatus::Active) {
                        proof {
                            let k = plan_view(plan@).len() as int;
                            assert(splan[k] == rest[0]);
                            assert(splan[k].0 == pi as int);
                            assert forall|l: int| 0 <= l < k implies self.users@[#[trigger] splan[l].0].info.status
                                == UserStatus::Active by {
                                assert(splan[l] == plan_view(plan@)[l]);
                                assert(plan_view(plan@)[l].0 == plan@[l].0 as int);
                            }
                        }
                        return Err(ContractError::UserNotRegistered {
                            user: self.users[pi].id.clone(),
                        });
                    }
                    let ghost pv_pre = plan_view(plan@);
                    plan.push((pi, rw));
                    proof {
                        assert(plan_view(plan@) =~= pv_pre + seq![(pi as int, rw as int)]);
                        assert(splan =~= plan_view(plan@) + rest_next);
                        assert forall|k: int|
                            0 <= k < plan@.len() implies users[(#[trigger] plan@[k]).0 as int].info.status
                            == UserStatus::Active by {
                            if k < plan@.len() - 1 {
                                assert(plan@[k] == plan@.drop_last()[k]);
                            }
                        }
                    }
                } else {
                    proof {
                        assert(rest == rest_next);
                    }
                }
            } else {
                proof {
                    assert(rest == rest_next);
                }
            }
            proof {
                assert(splan == plan_view(plan@) + cascade_plan(
                    users,
                    self.rules,
                    base,
                    pi as int,
                    level as int + 1,
                    maxd as int,
                ));
            }
            cur = pi;
            level = level + 1;
        }
        proof {
            assert(cascade_plan(users, self.rules, base, cur as int, level as int, maxd as int)
                =~= Seq::<(int, int)>::empty());
            assert(splan =~= plan_view(plan@));
        }
        Ok(plan)
    }
}

impl Registry {
    /// Distributes a multi-level referral reward up the ancestor chain of
    /// `referee`: per level with a positive configured rate, the base amount
    /// is scaled by the level rate and then by the ancestor's tier
    /// multiplier, truncating toward zero at each step, and any positive
    /// result is allocated to the ancestor with the referee recorded as the
    /// related user.  The cascade is atomic: it is validated whole before
    /// the first allocation, and any failure leaves the registry unchanged.
    #[verifier::rlimit(100)]
    pub fn allocate_multi_level_rewards(
        &mut self,
        referee: &str,
        base_points: u128,
        reason: PointsReason,
        event_id: Option<String>,
        now: u64,
    ) -> (r: Result<(), ContractError>)
        requires
            old(self).wf(),
            cascade_ok_of(*old(self), referee@, base_points),
        ensures
            final(self).wf(),
            final(self).config == old(self).config,
            final(self).rules == old(self).rules,
            final(self).reentrancy_lock == old(self).reentrancy_lock,
            match r {
                Ok(()) => {
                    let splan = cascade_plan_of(*old(self), referee@, base_points);
                    &&& plan_all_active(old(self).users@, splan)
                    &&& cascade_applied(
                        old(self).users@,
                        final(self).users@,
                        splan,
                        reason,
                        referee@,
                        opt_view(event_id),
                        now,
                    )
                },
                Err(e) => {
                    &&& *final(self) == *old(self)
                    &&& plan_first_inactive_err(
                        old(self).users@,
                        cascade_plan_of(*old(self), referee@, base_points),
                        e,
                    )
                },
            },
    {
        let ghost preu = self.users@;
        let ghost splan = cascade_plan_of(*old(self), referee@, base_points);
        let plan = match self.build_cascade_plan(referee, base_points) {
            Ok(p) => p,
            Err(e) => {
                return Err(e);
            },
        };
        proof {
            if contains_id(preu, referee@) {
                crate::state::lemma_idx_of(preu, referee@);
                lemma_plan_props(
                    preu,
                    self.rules,
                    base_points,
                    idx_of(preu, referee@),
                    1,
                    self.config.max_referral_depth as int,
                );
            }
            assert(splan.take(0) =~= Seq::<(int, int)>::empty());
        }
        let mut t: usize = 0;
        while t < plan.len()
            invariant
                old(self).wf(),
                t <= plan@.len(),
                plan_view(plan@) == splan,
                preu == old(self).users@,
                splan == cascade_plan_of(*old(self), referee@, base_points),
                plan_all_active(preu, splan),
                forall|k: int|
                    0 <= k < splan.len() ==> 0 <= (#[trigger] splan[k]).0 < preu.len() && 0
                        < splan[k].1 <= i128::MAX as int
                        && preu[splan[k].0].info.reward_points + splan[k].1 <= u128::MAX as int,
                forall|k: int, l: int| 0 <= k < l < splan.len() ==> splan[l].0 < splan[k].0,
                self.wf(),
                self.config == old(self).config,
                self.rules == old(self).rules,
                self.reentrancy_lock == old(self).reentrancy_lock,
                cascade_applied(
                    preu,
                    self.users@,
                    splan.take(t as int),
                    reason,
                    referee@,
                    opt_view(event_id),
                    now,
                ),
            decreases plan@.len() - t,
        {
            let (idx, rw) = plan[t];
            proof {
                assert(plan_view(plan@)[t as int] == (plan@[t as int].0 as int, plan@[t as int].1
                    as int));
                assert(splan[t as int].0 == idx as int && splan[t as int].1 == rw as int);
                assert(!plan_contains_idx(splan.take(t as int), idx as int)) by {
                    assert forall|k: int| 0 <= k < t implies (#[trigger] splan.take(
                        t as int,
                    )[k]).0 != idx as int by {
                        assert(splan.take(t as int)[k] == splan[k]);
                        assert(splan[t as int].0 < splan[k].0);
                    }
                }
                assert(self.users@[idx as int] == preu[idx as int]);
            }
            let id = self.users[idx].id.clone();
            let ghost mid = self.users@;
            proof {
                assert(mid[idx as int].id@ == id@);
                assert(contains_id(mid, id@));
                crate::state::lemma_idx_of(mid, id@);
                assert(idx_of(mid, id@) == idx as int);
                assert(registered_active(mid, id@));
                assert(points_of(mid, id@) == preu[idx as int].info.reward_points);
            }
            let related = Some(referee.to_owned());
            let ev = crate::state::clone_opt_string(&event_id);
            let res = self.allocate_points_to_user(id.as_str(), rw, reason, related, ev, now);
            proof {
                if res is Err {
                    assert(false);
                }
                assert(splan.take(t as int + 1) =~= splan.take(t as int).push(splan[t as int]));
                let taken = splan.take(t as int + 1);
                assert forall|j: int|
                    0 <= j < preu.len() && !plan_contains_idx(taken, j) implies self.users@[j]
                    == #[trigger] preu[j] by {
                    assert(!plan_contains_idx(splan.take(t as int), j)) by {
                        if plan_contains_idx(splan.take(t as int), j) {
                            let k = choose|k: int|
                                0 <= k < splan.take(t as int).len() && #[trigger] splan.take(
                                    t as int,
                                )[k].0 == j;
                            assert(taken[k].0 == j);
                        }
                    }
                    assert(j != idx as int) by {
                        assert(taken[t as int].0 == idx as int);
                    }
                    assert(mid[j] == preu[j]);
                }
                assert forall|k: int| 0 <= k < taken.len() implies {
                    let j = (#[trigger] taken[k]).0;
                    let a = preu[j].info;
                    let b = self.users@[j].info;
                    &&& self.users@[j].id == preu[j].id
                    &&& crate::state::same_but_points(b, a)
                    &&& b.reward_points == a.reward_points + taken[k].1
                    &&& crate::state::history_extended(
                        b,
                        a,
                        taken[k].1,
                        reason,
                        Some(referee@),
                        opt_view(event_id),
                        now,
                    )
                    &&& b.user_level == spec_level_for(a.referral_stats.total_referrals)
                } by {
                    assert(taken[k] == splan[k]);
                    if k < t as int {
                        let j = splan[k].0;
                        assert(splan.take(t as int)[k] == splan[k]);
                        assert(j != idx as int) by {
                            assert(splan[t as int].0 < splan[k].0);
                        }
                        assert(self.users@[j] == mid[j]);
                    } else {
                        assert(k == t as int);
                    }
                }
            }
            t += 1;
        }
        proof {
            assert(splan.take(plan@.len() as int) =~= splan);
        }
        Ok(())
    }
}

impl Registry {
    /// One leaderboard page as `(user, points, rank)` rows, highest balances
    /// first, ranks starting at one and strictly sequential.
    #[verifier::loop_isolation(false)]
    pub fn get_leaderboard(&self, limit: Option<u32>, _start_after: Option<String>) -> (r: Vec<
        (String, u128, u32),
    >)
        requires
            self.wf(),
        ensures
            ({
                let lb = self.leaderboard@;
                let n = if crate::query::spec_eff_limit(limit) as int <= lb.len() {
                    crate::query::spec_eff_limit(limit) as int
                } else {
                    lb.len() as int
                };
                &&& r@.len() == n
                &&& forall|k: int|
                    0 <= k < n ==> ((#[trigger] r@[k]).0@ == lb[k].user@ && r@[k].1 == lb[k].points
                        && r@[k].2 as int == k + 1)
            }),
    {
        let lim = crate::query::eff_limit(limit) as usize;
        let mut out: Vec<(String, u128, u32)> = Vec::new();
        let mut k: usize = 0;
        while k < self.leaderboard.len() && k < lim
            invariant
                k <= self.leaderboard@.len(),
                k <= lim,
                out@.len() == k,
                forall|t: int|
                    0 <= t < k ==> ((#[trigger] out@[t]).0@ == self.leaderboard@[t].user@
                        && out@[t].1 == self.leaderboard@[t].points && out@[t].2 as int == t + 1),
            decreases self.leaderboard@.len() - k,
        {
            let user = self.leaderboard[k].user.clone();
            let points = self.leaderboard[k].points;
            let rank = (k as u32) + 1;
            out.push((user, points, rank));
            k += 1;
        }
        out
    }
}

/// After the insert, every index entry corresponds to a registered user with
/// its current balance.
proof fn lemma_post_entry(
    pre: Seq<BoardEntry>,
    mid: Seq<BoardEntry>,
    post: Seq<BoardEntry>,
    users: Seq<UserEntry>,
    id: Seq<char>,
    points: u128,
    k: int,
)
    requires
        0 <= k < post.len(),
        contains_id(users, id),
        points == points_of(users, id),
        forall|j: int|
            0 <= j < mid.len() ==> contains_id(users, (#[trigger] mid[j].user)@) && mid[j].user@
                != id && mid[j].points == points_of(users, mid[j].user@),
        exists|p: int, e: BoardEntry|
            0 <= p <= mid.len() && e.points == points && e.user@ == id && post == #[trigger] mid.insert(
                p,
                e,
            ),
    ensures
        contains_id(users, post[k].user@),
        post[k].points == points_of(users, post[k].user@),
{
    let (p, e): (int, BoardEntry) = choose|p: int, e: BoardEntry|
        0 <= p <= mid.len() && e.points == points && e.user@ == id && post == #[trigger] mid.insert(
            p,
            e,
        );
    if k == p {
        assert(post[k] == e);
    } else {
        let k0 = if k < p { k } else { k - 1 };
        assert(post[k] == mid[k0]);
    }
}

/// After the insert, every registered user has an index entry.
proof fn lemma_post_cover(
    pre: Seq<BoardEntry>,
    mid: Seq<BoardEntry>,
    post: Seq<BoardEntry>,
    users: Seq<UserEntry>,
    id: Seq<char>,
    points: u128,
    i: int,
)
    requires
        0 <= i < users.len(),
        forall|j: int|
            0 <= j < users.len() && (#[trigger] users[j].id)@ != id ==> has_board_entry(
                mid,
                users[j].id@,
            ),
        exists|p: int, e: BoardEntry|
            0 <= p <= mid.len() && e.points == points && e.user@ == id && post == #[trigger] mid.insert(
                p,
                e,
            ),
    ensures
        has_board_entry(post, users[i].id@),
{
    let (p, e): (int, BoardEntry) = choose|p: int, e: BoardEntry|
        0 <= p <= mid.len() && e.points == points && e.user@ == id && post == #[trigger] mid.insert(
            p,
            e,
        );
    if users[i].id@ == id {
        assert(post[p] == e);
        assert(0 <= p < post.len() && post[p].user@ == users[i].id@);
    } else {
        assert(has_board_entry(mid, users[i].id@));
        let w = choose|k: int| #![trigger mid[k].user]
            0 <= k < mid.len() && mid[k].user@ == users[i].id@;
        let w2 = if w < p { w } else { w + 1 };
        assert(post[w2] == mid[w]);
        assert(0 <= w2 < post.len() && post[w2].user@ == users[i].id@);
    }
}

} // verus!
