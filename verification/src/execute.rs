//! The mutating operations of the engine: registration, reward allocation,
//! withdrawal, and the admin operations on configuration, rules and the
//! emergency pause.  Validation always completes before any mutation, so a
//! returned error implies an unchanged registry.

use vstd::prelude::*;
use crate::error::ContractError;
use crate::msg::RewardAllocation;
use crate::points::{allocate_post, withdraw_post};
use crate::referral::ancestors_of;
use crate::state::{
    contains_id, idx_of, is_fresh_info, lemma_idx_of, lemma_push_entry, lemma_update_entry,
    opt_view, referrer_bookkeeping_updated, referrer_counters_ok, registered_active, Registry,
    UserEntry, UserStatus,
};
use crate::user::{create_user_info, find_user};

verus! {

/// The success state of a registration: one fresh record appended for the
/// new user, and — when a referrer was given — that referrer's bookkeeping
/// advanced; nobody else touched.
pub open spec fn register_success(
    preu: Seq<UserEntry>,
    postu: Seq<UserEntry>,
    sender: Seq<char>,
    referrer: Option<Seq<char>>,
    now: u64,
) -> bool {
    &&& postu.len() == preu.len() + 1
    &&& postu.last().id@ == sender
    &&& is_fresh_info(postu.last().info, referrer, now)
    &&& match referrer {
        None => forall|j: int| 0 <= j < preu.len() ==> postu[j] == preu[j],
        Some(p) => {
            let ri = idx_of(preu, p);
            &&& forall|j: int| 0 <= j < preu.len() && j != ri ==> postu[j] == preu[j]
            &&& postu[ri].id == preu[ri].id
            &&& referrer_bookkeeping_updated(postu[ri].info, preu[ri].info, sender, now)
        },
    }
}

/// The full outcome of a registration attempt, decided in this order: the
/// pause gate, referrer validity, the cycle check, the duplicate check, and
/// only then the mutation.
pub open spec fn register_post(
    pre: Registry,
    post: Registry,
    r: Result<(), ContractError>,
    sender: Seq<char>,
    referrer: Option<Seq<char>>,
    now: u64,
) -> bool {
    let paused = !pre.config.enabled || pre.config.emergency_paused;
    let ref_ok = match referrer {
        Some(p) => registered_active(pre.users@, p),
        None => true,
    };
    let circular = match referrer {
        Some(p) => ancestors_of(pre.users@, p).contains(sender),
        None => false,
    };
    let duplicate = contains_id(pre.users@, sender);
    &&& post.config == pre.config
    &&& post.rules == pre.rules
    &&& post.reentrancy_lock == pre.reentrancy_lock
    &&& if paused {
        &&& r == Result::<(), ContractError>::Err(ContractError::SystemPaused)
        &&& post.users == pre.users
        &&& post.leaderboard == pre.leaderboard
    } else if !ref_ok {
        &&& (r matches Err(ContractError::InvalidReferrer { referrer: rr }) && rr@
            == referrer.unwrap())
        &&& post.users == pre.users
        &&& post.leaderboard == pre.leaderboard
    } else if circular {
        &&& (r matches Err(ContractError::CircularReferral { referrer: rr, referee: re }) && rr@
            == referrer.unwrap() && re@ == sender)
        &&& post.users == pre.users
        &&& post.leaderboard == pre.leaderboard
    } else if duplicate {
        &&& (r matches Err(ContractError::UserAlreadyRegistered { user: u }) && u@ == sender)
        &&& post.users == pre.users
        &&& post.leaderboard == pre.leaderboard
    } else {
        &&& r is Ok
        &&& register_success(pre.users@, post.users@, sender, referrer, now)
    }
}

impl Registry {
    /// Registers `sender`, optionally under a referrer.  Fails with
    /// `SystemPaused` while the system is disabled or paused, with
    /// `InvalidReferrer` when the referrer is absent or inactive, with
    /// `CircularReferral` when the new edge would close a referral cycle,
    /// and with `UserAlreadyRegistered` on a duplicate id; no failure
    /// mutates anything.
    pub fn execute_register(&mut self, sender: &str, referrer: Option<String>, now: u64) -> (r:
        Result<(), ContractError>)
        requires
            old(self).wf(),
            match referrer {
                Some(p) => referrer_counters_ok(old(self).users@, p@),
                None => true,
            },
        ensures
            final(self).wf(),
            register_post(*old(self), *final(self), r, sender@, opt_view(referrer), now),
    {
        if !self.config.enabled || self.config.emergency_paused {
            return Err(ContractError::SystemPaused);
        }
        match referrer {
            Some(p) => {
                let valid = match find_user(&self.users, p.as_str()) {
                    Some(ri) => {
                        proof {
                            lemma_idx_of(self.users@, p@);
                        }
                        self.users[ri].info.status == UserStatus::Active
                    },
                    None => false,
                };
                if !valid {
                    return Err(ContractError::InvalidReferrer { referrer: p });
                }
                match self.check_circular_referral(p.as_str(), sender) {
                    Err(e) => {
                        return Err(e);
                    },
                    Ok(()) => {},
                }
                if self.user_exists(sender) {
                    return Err(ContractError::UserAlreadyRegistered { user: sender.to_owned() });
                }
                let ghost preu = self.users@;
                let ghost pv = p@;
                let res = self.add_referral_relation(p.as_str(), sender, now);
                proof {
                    if res is Err {
                        assert(false);
                    }
                }
                let ghost midu = self.users@;
                proof {
                    lemma_idx_of(preu, pv);
                    lemma_update_entry(preu, midu, idx_of(preu, pv));
                }
                let info = create_user_info(Some(p), now);
                let entry = UserEntry { id: sender.to_owned(), info };
                let ghost ge = entry;
                self.users.push(entry);
                proof {
                    lemma_push_entry(midu, ge);
                    register_mutation_facts(midu, self.users@, self.leaderboard@, ge, sender@);
                }
                let res2 = self.update_leaderboard(sender, 0);
                proof {
                    if res2 is Err {
                        assert(false);
                    }
                }
                Ok(())
            },
            None => {
                if self.user_exists(sender) {
                    return Err(ContractError::UserAlreadyRegistered { user: sender.to_owned() });
                }
                let ghost midu = self.users@;
                let info = create_user_info(None, now);
                let entry = UserEntry { id: sender.to_owned(), info };
                let ghost ge = entry;
                self.users.push(entry);
                proof {
                    lemma_push_entry(midu, ge);
                    register_mutation_facts(midu, self.users@, self.leaderboard@, ge, sender@);
                }
                let res2 = self.update_leaderboard(sender, 0);
                proof {
                    if res2 is Err {
                        assert(false);
                    }
                }
                Ok(())
            },
        }
    }
}

impl Registry {
    /// Admin-gated single allocation: exactly `allocate_points_to_user`
    /// after the authorization check.
    pub fn execute_allocate_rewards(
        &mut self,
        sender: &str,
        user: &str,
        points: u128,
        reason: crate::state::PointsReason,
        related_user: Option<String>,
        event_id: Option<String>,
        now: u64,
    ) -> (r: Result<(), ContractError>)
        requires
            old(self).wf(),
            points <= i128::MAX as u128,
            registered_active(old(self).users@, user@) ==> crate::state::points_of(
                old(self).users@,
                user@,
            ) + points <= u128::MAX,
        ensures
            final(self).wf(),
            sender@ != old(self).config.admin@ ==> *final(self) == *old(self) && (r matches Err(e)
                && e matches ContractError::Unauthorized { .. }),
            sender@ == old(self).config.admin@ ==> allocate_post(
                *old(self),
                *final(self),
                r,
                user@,
                points,
                reason,
                opt_view(related_user),
                opt_view(event_id),
                now,
            ),
    {
        match self.check_admin_permission(sender) {
            Err(e) => Err(e),
            Ok(()) => self.allocate_points_to_user(
                user,
                points,
                reason,
                related_user,
                event_id,
                now,
            ),
        }
    }

    /// Withdrawal by the sender, gated on the emergency pause.
    pub fn execute_withdraw_points(&mut self, sender: &str, amount: u128, now: u64) -> (r: Result<
        (),
        ContractError,
    >)
        requires
            old(self).wf(),
            amount <= i128::MAX as u128,
        ensures
            final(self).wf(),
            old(self).config.emergency_paused ==> *final(self) == *old(self) && r == Result::<
                (),
                ContractError,
            >::Err(ContractError::SystemPaused),
            !old(self).config.emergency_paused ==> withdraw_post(
                *old(self),
                *final(self),
                r,
                sender@,
                amount,
                now,
            ),
    {
        match self.check_system_paused() {
            Err(e) => Err(e),
            Ok(()) => self.withdraw_points(sender, amount, now),
        }
    }

    /// Replaces the system configuration whole, admin only.
    pub fn execute_update_config(&mut self, sender: &str, config: crate::state::SystemConfig) -> (r:
        Result<(), ContractError>)
        requires
            old(self).wf(),
        ensures
            final(self).wf(),
            match r {
                Ok(()) => {
                    &&& sender@ == old(self).config.admin@
                    &&& final(self).config == config
                    &&& final(self).rules == old(self).rules
                    &&& final(self).users == old(self).users
                    &&& final(self).leaderboard == old(self).leaderboard
                    &&& final(self).reentrancy_lock == old(self).reentrancy_lock
                },
                Err(e) => {
                    &&& sender@ != old(self).config.admin@
                    &&& *final(self) == *old(self)
                    &&& (e matches ContractError::Unauthorized { .. })
                },
            },
    {
        match self.check_admin_permission(sender) {
            Err(e) => Err(e),
            Ok(()) => {
                self.config = config;
                Ok(())
            },
        }
    }

    /// Replaces the reward rules whole, admin only.
    pub fn execute_update_points_rules(
        &mut self,
        sender: &str,
        rules: crate::state::PointsRules,
    ) -> (r: Result<(), ContractError>)
        requires
            old(self).wf(),
        ensures
            final(self).wf(),
            match r {
                Ok(()) => {
                    &&& sender@ == old(self).config.admin@
                    &&& final(self).rules == rules
                    &&& final(self).config == old(self).config
                    &&& final(self).users == old(self).users
                    &&& final(self).leaderboard == old(self).leaderboard
                    &&& final(self).reentrancy_lock == old(self).reentrancy_lock
                },
                Err(e) => {
                    &&& sender@ != old(self).config.admin@
                    &&& *final(self) == *old(self)
                    &&& (e matches ContractError::Unauthorized { .. })
                },
            },
    {
        match self.check_admin_permission(sender) {
            Err(e) => Err(e),
            Ok(()) => {
                self.rules = rules;
                Ok(())
            },
        }
    }

    /// Sets or clears the emergency pause, admin only.  Clearing it restores
    /// normal registration behavior, since every gate reads the flag afresh.
    pub fn execute_emergency_pause(&mut self, sender: &str, paused: bool) -> (r: Result<
        (),
        ContractError,
    >)
        requires
            old(self).wf(),
        ensures
            final(self).wf(),
            match r {
                Ok(()) => {
                    &&& sender@ == old(self).config.admin@
                    &&& final(self).config == (crate::state::SystemConfig {
                        emergency_paused: paused,
                        ..old(self).config
                    })
                    &&& final(self).rules == old(self).rules
                    &&& final(self).users == old(self).users
                    &&& final(self).leaderboard == old(self).leaderboard
                    &&& final(self).reentrancy_lock == old(self).reentrancy_lock
                },
                Err(e) => {
                    &&& sender@ != old(self).config.admin@
                    &&& *final(self) == *old(self)
                    &&& (e matches ContractError::Unauthorized { .. })
                },
            },
    {
        match self.check_admin_permission(sender) {
            Err(e) => Err(e),
            Ok(()) => {
                self.config.emergency_paused = paused;
                Ok(())
            },
        }
    }
}

/// Balances after applying a batch prefix, indexed by arena position.
pub open spec fn batch_balances(users: Seq<UserEntry>, entries: Seq<RewardAllocation>) -> Seq<int>
    decreases entries.len(),
{
    if entries.len() == 0 {
        Seq::new(users.len(), |j: int| users[j].info.reward_points as int)
    } else {
        let prev = batch_balances(users, entries.drop_last());
        let e = entries.last();
        if registered_active(users, e.user@) {
            let i = idx_of(users, e.user@);
            prev.update(i, prev[i] + e.points)
        } else {
            prev
        }
    }
}

/// No allocation of the batch overflows a ledger delta or a balance.
pub open spec fn batch_ok(users: Seq<UserEntry>, entries: Seq<RewardAllocation>) -> bool {
    forall|k: int|
        0 <= k < entries.len() ==> (#[trigger] entries[k]).points <= i128::MAX as u128 && (
        registered_active(users, entries[k].user@) ==> batch_balances(users, entries.take(k))[
            idx_of(users, entries[k].user@)] + entries[k].points <= u128::MAX as int)
}

/// Every batch entry names a registered, active user.
pub open spec fn batch_all_active(users: Seq<UserEntry>, entries: Seq<RewardAllocation>) -> bool {
    forall|k: int|
        0 <= k < entries.len() ==> registered_active(users, (#[trigger] entries[k]).user@)
}

/// The batch was rejected at its first entry whose user is absent or not
/// active, reported by id; nothing was committed.
pub open spec fn batch_first_invalid_err(
    users: Seq<UserEntry>,
    entries: Seq<RewardAllocation>,
    e: ContractError,
) -> bool {
    exists|k: int| #![trigger entries[k]]
        0 <= k < entries.len() && !registered_active(users, entries[k].user@) && (forall|l: int|
            0 <= l < k ==> registered_active(users, (#[trigger] entries[l]).user@)) && (e matches
        ContractError::UserNotRegistered { user: u } && u@ == entries[k].user@)
}

/// The state after a whole batch: the single allocations chained in order.
pub open spec fn batch_applied(
    pre: Registry,
    post: Registry,
    entries: Seq<RewardAllocation>,
    now: u64,
) -> bool
    decreases entries.len(),
{
    if entries.len() == 0 {
        post == pre
    } else {
        exists|mid: Registry| #![auto]
            batch_applied(pre, mid, entries.drop_last(), now) && mid.wf() && crate::points::allocate_post(
                mid,
                post,
                Ok(()),
                entries.last().user@,
                entries.last().points,
                entries.last().reason,
                opt_view(entries.last().related_user),
                opt_view(entries.last().event_id),
                now,
            )
    }
}

proof fn lemma_batch_balances_len(users: Seq<UserEntry>, entries: Seq<RewardAllocation>)
    ensures
        batch_balances(users, entries).len() == users.len(),
    decreases entries.len(),
{
    if entries.len() > 0 {
        lemma_batch_balances_len(users, entries.drop_last());
    }
}

/// One applied batch entry advances the modeled balances by exactly that
/// entry and touches no id or status.
proof fn lemma_batch_step(
    preu: Seq<UserEntry>,
    mid: Registry,
    post: Registry,
    entries: Seq<RewardAllocation>,
    t: int,
    now: u64,
)
    requires
        0 <= t < entries.len(),
        crate::state::unique_ids(preu),
        preu.len() == mid.users@.len(),
        forall|j: int|
            0 <= j < preu.len() ==> ((#[trigger] mid.users@[j]).id@ == preu[j].id@
                && mid.users@[j].info.status == preu[j].info.status),
        forall|j: int|
            0 <= j < preu.len() ==> (#[trigger] mid.users@[j]).info.reward_points as int
                == batch_balances(preu, entries.take(t))[j],
        registered_active(preu, entries[t].user@),
        crate::points::allocate_post(
            mid,
            post,
            Ok(()),
            entries[t].user@,
            entries[t].points,
            entries[t].reason,
            opt_view(entries[t].related_user),
            opt_view(entries[t].event_id),
            now,
        ),
    ensures
        post.users@.len() == preu.len(),
        forall|j: int|
            0 <= j < preu.len() ==> ((#[trigger] post.users@[j]).id@ == preu[j].id@
                && post.users@[j].info.status == preu[j].info.status),
        forall|j: int|
            0 <= j < preu.len() ==> (#[trigger] post.users@[j]).info.reward_points as int
                == batch_balances(preu, entries.take(t + 1))[j],
{
    let u = entries[t].user@;
    lemma_batch_balances_len(preu, entries.take(t));
    lemma_batch_balances_len(preu, entries.take(t + 1));
    crate::state::lemma_ids_aligned(preu, mid.users@);
    lemma_idx_of(preu, u);
    let i = idx_of(preu, u);
    assert(idx_of(mid.users@, u) == i);
    assert(entries.take(t + 1).drop_last() =~= entries.take(t));
    assert(entries.take(t + 1).last() == entries[t]);
    let prev = batch_balances(preu, entries.take(t));
    assert(batch_balances(preu, entries.take(t + 1)) == prev.update(
        i,
        prev[i] + entries[t].points,
    ));
    assert forall|j: int|
        0 <= j < preu.len() implies ((#[trigger] post.users@[j]).id@ == preu[j].id@
        && post.users@[j].info.status == preu[j].info.status && post.users@[j].info.reward_points
        as int == batch_balances(preu, entries.take(t + 1))[j]) by {
        if j != i {
            assert(post.users@[j] == mid.users@[j]);
        } else {
            assert(post.users@[i].info.reward_points == mid.users@[i].info.reward_points
                + entries[t].points);
        }
    }
}

impl Registry {
    /// Admin-gated batch allocation: all entries are validated against the
    /// current state before anything is credited, the first entry naming an
    /// absent or inactive user aborts the whole batch, and on success the
    /// entries are applied in order.
    #[verifier::rlimit(100)]
    pub fn execute_batch_allocate_rewards(
        &mut self,
        sender: &str,
        rewards: Vec<RewardAllocation>,
        now: u64,
    ) -> (r: Result<(), ContractError>)
        requires
            old(self).wf(),
            batch_ok(old(self).users@, rewards@),
        ensures
            final(self).wf(),
            sender@ != old(self).config.admin@ ==> *final(self) == *old(self) && (r matches Err(e)
                && e matches ContractError::Unauthorized { .. }),
            sender@ == old(self).config.admin@ ==> match r {
                Ok(()) => batch_all_active(old(self).users@, rewards@) && batch_applied(
                    *old(self),
                    *final(self),
                    rewards@,
                    now,
                ),
                Err(e) => *final(self) == *old(self) && batch_first_invalid_err(
                    old(self).users@,
                    rewards@,
                    e,
                ),
            },
    {
        match self.check_admin_permission(sender) {
            Err(e) => {
                return Err(e);
            },
            Ok(()) => {},
        }
        let ghost preu = self.users@;
        // Validation pass: every named user must be registered and active.
        let mut k: usize = 0;
        while k < rewards.len()
            invariant
                k <= rewards@.len(),
                *self == *old(self),
                preu == old(self).users@,
                old(self).wf(),
                sender@ == old(self).config.admin@,
                forall|l: int|
                    0 <= l < k ==> registered_active(preu, (#[trigger] rewards@[l]).user@),
            decreases rewards@.len() - k,
        {
            let active = match find_user(&self.users, rewards[k].user.as_str()) {
                Some(i) => {
                    proof {
                        lemma_idx_of(preu, rewards@[k as int].user@);
                    }
                    self.users[i].info.status == UserStatus::Active
                },
                None => false,
            };
            if !active {
                return Err(ContractError::UserNotRegistered { user: rewards[k].user.clone() });
            }
            k += 1;
        }
        // Application pass: every allocation is now known to succeed.
        let mut t: usize = 0;
        proof {
            assert(batch_balances(preu, rewards@.take(0)) =~= Seq::new(
                preu.len(),
                |j: int| preu[j].info.reward_points as int,
            )) by {
                assert(rewards@.take(0) =~= Seq::<RewardAllocation>::empty());
            }
        }
        while t < rewards.len()
            invariant
                t <= rewards@.len(),
                old(self).wf(),
                preu == old(self).users@,
                crate::state::unique_ids(preu),
                sender@ == old(self).config.admin@,
                batch_ok(preu, rewards@),
                forall|l: int|
                    0 <= l < rewards@.len() ==> registered_active(
                        preu,
                        (#[trigger] rewards@[l]).user@,
                    ),
                self.wf(),
                self.config == old(self).config,
                self.rules == old(self).rules,
                self.reentrancy_lock == old(self).reentrancy_lock,
                self.users@.len() == preu.len(),
                forall|j: int|
                    0 <= j < preu.len() ==> ((#[trigger] self.users@[j]).id@ == preu[j].id@
                        && self.users@[j].info.status == preu[j].info.status),
                forall|j: int|
                    0 <= j < preu.len() ==> (#[trigger] self.users@[j]).info.reward_points as int
                        == batch_balances(preu, rewards@.take(t as int))[j],
                batch_applied(*old(self), *self, rewards@.take(t as int), now),
            decreases rewards@.len() - t,
        {
            let ghost mid = *self;
            proof {
                crate::state::lemma_ids_aligned(preu, self.users@);
                assert(registered_active(preu, rewards@[t as int].user@));
                lemma_idx_of(preu, rewards@[t as int].user@);
                assert(idx_of(self.users@, rewards@[t as int].user@) == idx_of(
                    preu,
                    rewards@[t as int].user@,
                ));
                assert(registered_active(self.users@, rewards@[t as int].user@));
                assert(rewards@.take(t as int + 1).drop_last() =~= rewards@.take(t as int));
                assert(rewards@.take(t as int + 1).last() == rewards@[t as int]);
            }
            let entry = &rewards[t];
            let related = crate::state::clone_opt_string(&entry.related_user);
            let ev = crate::state::clone_opt_string(&entry.event_id);
            let res = self.allocate_points_to_user(
                entry.user.as_str(),
                entry.points,
                entry.reason,
                related,
                ev,
                now,
            );
            proof {
                if res is Err {
                    assert(false);
                }
                assert(crate::points::allocate_post(
                    mid,
                    *self,
                    Ok(()),
                    rewards@[t as int].user@,
                    rewards@[t as int].points,
                    rewards@[t as int].reason,
                    opt_view(rewards@[t as int].related_user),
                    opt_view(rewards@[t as int].event_id),
                    now,
                ));
                assert(batch_applied(*old(self), *self, rewards@.take(t as int + 1), now)) by {
                    assert(batch_applied(*old(self), mid, rewards@.take(t as int), now));
                }
                lemma_batch_step(preu, mid, *self, rewards@, t as int, now);
            }
            t += 1;
        }
        proof {
            assert(rewards@.take(rewards@.len() as int) =~= rewards@);
        }
        Ok(())
    }
}

/// After a fresh record with a zero balance and empty history is pushed for
/// a new id, the arena invariants hold and the untouched board still lists
/// every other user correctly.
proof fn register_mutation_facts(
    mid: Seq<UserEntry>,
    post: Seq<UserEntry>,
    board: Seq<crate::state::BoardEntry>,
    e: UserEntry,
    sender: Seq<char>,
)
    requires
        post == mid.push(e),
        e.id@ == sender,
        e.info.reward_points == 0,
        e.info.points_history@.len() == 0,
        crate::state::unique_ids(mid),
        crate::state::ledger_ok(mid),
        !contains_id(mid, sender),
        crate::state::board_matches_users(board, mid),
    ensures
        crate::state::ledger_ok(post),
        contains_id(post, sender),
        crate::state::points_of(post, sender) == 0,
        crate::points::board_matches_except(board, post, sender),
{
    lemma_push_entry(mid, e);
    assert(post[mid.len() as int] == e);
    assert forall|j: int| 0 <= j < post.len() implies (#[trigger] post[j].info).reward_points
        as int == crate::state::sum_deltas(post[j].info.points_history@) by {
        if j < mid.len() {
            assert(post[j] == mid[j]);
        } else {
            assert(post[j] == e);
            assert(crate::state::sum_deltas(e.info.points_history@) == 0);
        }
    }
    lemma_idx_of(post, sender);
    assert(crate::state::points_of(post, sender) == 0);
    assert forall|k: int| 0 <= k < board.len() implies contains_id(
        post,
        #[trigger] board[k].user@,
    ) && (board[k].user@ != sender ==> board[k].points == crate::state::points_of(
        post,
        board[k].user@,
    )) by {
        let u = board[k].user@;
        assert(contains_id(mid, u));
        assert(u != sender);
        lemma_idx_of(mid, u);
        assert(idx_of(post, u) == idx_of(mid, u));
        assert(post[idx_of(mid, u)] == mid[idx_of(mid, u)]);
    }
    assert forall|j: int|
        0 <= j < post.len() && (#[trigger] post[j].id)@ != sender implies
        crate::state::has_board_entry(board, post[j].id@) by {
        assert(j < mid.len());
        assert(post[j] == mid[j]);
        assert(mid[j].id@ == post[j].id@);
    }
}

} // verus!
