//! The referral graph: ancestor chains, cycle rejection, referral
//! validation, and the proof that the parent relation never contains a
//! cycle.

use vstd::prelude::*;
use crate::error::ContractError;
use crate::order::str_eq;
use crate::state::{
    contains_id, idx_of, lemma_idx_of, registered_active, unique_ids, parents_ok, Registry,
    UserEntry,
};
use crate::user::find_user;

verus! {

/// The ancestor ids reachable from arena index `i`, nearest first, at most
/// `fuel` of them.
pub open spec fn chain_from(users: Seq<UserEntry>, i: int, fuel: nat) -> Seq<Seq<char>>
    decreases fuel,
{
    if fuel == 0 || !(0 <= i < users.len()) {
        Seq::empty()
    } else {
        match users[i].info.recommender {
            Some(p) => seq![p@] + chain_from(users, idx_of(users, p@), (fuel - 1) as nat),
            None => Seq::empty(),
        }
    }
}

/// The full ancestor chain of a user, nearest first.
pub open spec fn ancestors_of(users: Seq<UserEntry>, id: Seq<char>) -> Seq<Seq<char>> {
    if contains_id(users, id) {
        chain_from(users, idx_of(users, id), users.len() as nat)
    } else {
        Seq::empty()
    }
}

/// In a well-formed arena a parent sits at a strictly smaller index.
pub proof fn lemma_parent_index(users: Seq<UserEntry>, i: int) -> (j: int)
    requires
        unique_ids(users),
        parents_ok(users),
        0 <= i < users.len(),
        users[i].info.recommender is Some,
    ensures
        0 <= j < i,
        users[j].id@ == users[i].info.recommender.unwrap()@,
        contains_id(users, users[i].info.recommender.unwrap()@),
        idx_of(users, users[i].info.recommender.unwrap()@) == j,
{
    let p = users[i].info.recommender.unwrap();
    let w = choose|w: int| 0 <= w < i && users[w].id@ == p@;
    assert(contains_id(users, p@));
    lemma_idx_of(users, p@);
    w
}

/// Beyond index `i + 1` the fuel does not matter: the chain from `i` has at
/// most `i + 1` links because parent indices strictly descend.
pub proof fn lemma_chain_fuel(users: Seq<UserEntry>, i: int, f1: nat, f2: nat)
    requires
        unique_ids(users),
        parents_ok(users),
        0 <= i < users.len(),
        f1 >= i + 1,
        f2 >= i + 1,
    ensures
        chain_from(users, i, f1) == chain_from(users, i, f2),
    decreases i,
{
    match users[i].info.recommender {
        Some(p) => {
            let j = lemma_parent_index(users, i);
            lemma_chain_fuel(users, j, (f1 - 1) as nat, (f2 - 1) as nat);
        },
        None => {},
    }
}

/// Unfolds one link: the chain of a user is its parent followed by the
/// parent's chain.
pub proof fn lemma_ancestors_step(users: Seq<UserEntry>, i: int)
    requires
        unique_ids(users),
        parents_ok(users),
        0 <= i < users.len(),
        users[i].info.recommender is Some,
    ensures
        ancestors_of(users, users[i].id@) == seq![users[i].info.recommender.unwrap()@]
            + ancestors_of(users, users[i].info.recommender.unwrap()@),
{
    let p = users[i].info.recommender.unwrap();
    lemma_idx_of(users, users[i].id@);
    assert(idx_of(users, users[i].id@) == i);
    let j = lemma_parent_index(users, i);
    lemma_chain_fuel(users, j, (users.len() - 1) as nat, users.len() as nat);
}

/// The chain of a root is empty.
pub proof fn lemma_ancestors_root(users: Seq<UserEntry>, i: int)
    requires
        unique_ids(users),
        parents_ok(users),
        0 <= i < users.len(),
        users[i].info.recommender is None,
    ensures
        ancestors_of(users, users[i].id@) == Seq::<Seq<char>>::empty(),
{
    lemma_idx_of(users, users[i].id@);
}

impl Registry {
    /// Walks the ancestor chain of `referrer` and rejects the registration
    /// of `referee` under it exactly when `referee` already appears on that
    /// chain.  (The walk is bounded by the arena order, so it always
    /// terminates, even without a visited set.)
    pub fn check_circular_referral(&self, referrer: &str, referee: &str) -> (r: Result<
        (),
        ContractError,
    >)
        requires
            self.wf(),
        ensures
            match r {
                Ok(()) => !ancestors_of(self.users@, referrer@).contains(referee@),
                Err(e) => {
                    &&& ancestors_of(self.users@, referrer@).contains(referee@)
                    &&& (e matches ContractError::CircularReferral { referrer: rr, referee: re }
                        && rr@ == referrer@ && re@ == referee@)
                },
            },
    {
        let ghost users = self.users@;
        let ghost whole = ancestors_of(users, referrer@);
        let mut cur: usize;
        match find_user(&self.users, referrer) {
            Some(i) => {
                cur = i;
                proof {
                    lemma_idx_of(users, referrer@);
                }
            },
            None => {
                return Ok(());
            },
        }
        let ghost mut seen: Seq<Seq<char>> = Seq::empty();
        proof {
            assert(whole =~= seen + ancestors_of(users, users[cur as int].id@));
        }
        loop
            invariant
                self.wf(),
                users == self.users@,
                whole == ancestors_of(users, referrer@),
                0 <= cur < users.len(),
                whole == seen + ancestors_of(users, users[cur as int].id@),
                !seen.contains(referee@),
            decreases cur,
        {
            let parent = match &self.users[cur].info.recommender {
                Some(p) => p.clone(),
                None => {
                    proof {
                        lemma_ancestors_root(users, cur as int);
                        assert(whole =~= seen);
                    }
                    return Ok(());
                },
            };
            proof {
                lemma_ancestors_step(users, cur as int);
            }
            if str_eq(parent.as_str(), referee) {
                proof {
                    let tail = ancestors_of(users, users[cur as int].id@);
                    assert(tail[0] == referee@);
                    assert(whole[seen.len() as int] == referee@);
                }
                return Err(ContractError::CircularReferral {
                    referrer: referrer.to_owned(),
                    referee: referee.to_owned(),
                });
            }
            let next = match find_user(&self.users, parent.as_str()) {
                Some(j) => j,
                None => {
                    proof {
                        let j = lemma_parent_index(users, cur as int);
                        assert(contains_id(users, parent@));
                        assert(false);
                    }
                    return Ok(());
                },
            };
            proof {
                let j = lemma_parent_index(users, cur as int);
                lemma_idx_of(users, parent@);
                assert(next as int == j);
                assert(ancestors_of(users, users[cur as int].id@) == seq![parent@]
                    + ancestors_of(users, parent@));
                assert(whole =~= (seen + seq![parent@]) + ancestors_of(
                    users,
                    users[j].id@,
                ));
                assert(!(seen + seq![parent@]).contains(referee@)) by {
                    let s2 = seen + seq![parent@];
                    assert forall|k: int| 0 <= k < s2.len() implies s2[k] != referee@ by {
                        if k < seen.len() {
                            assert(s2[k] == seen[k]);
                        } else {
                            assert(s2[k] == parent@);
                        }
                    }
                }
                seen = seen + seq![parent@];
            }
            cur = next;
        }
    }

    /// Validation of a prospective referral edge: the referrer must be
    /// registered and active, the referee not yet registered, and the edge
    /// must not close a cycle.
    pub fn validate_referral(&self, referrer: &str, referee: &str) -> (r: Result<
        (),
        ContractError,
    >)
        requires
            self.wf(),
        ensures
            match r {
                Ok(()) => {
                    &&& registered_active(self.users@, referrer@)
                    &&& !contains_id(self.users@, referee@)
                    &&& !ancestors_of(self.users@, referrer@).contains(referee@)
                },
                Err(e) => match e {
                    ContractError::InvalidReferrer { referrer: rr } => !registered_active(
                        self.users@,
                        referrer@,
                    ) && rr@ == referrer@,
                    ContractError::UserAlreadyRegistered { user: u } => registered_active(
                        self.users@,
                        referrer@,
                    ) && contains_id(self.users@, referee@) && u@ == referee@,
                    ContractError::CircularReferral { referrer: rr, referee: re } => {
                        &&& registered_active(self.users@, referrer@)
                        &&& !contains_id(self.users@, referee@)
                        &&& ancestors_of(self.users@, referrer@).contains(referee@)
                        &&& rr@ == referrer@
                        &&& re@ == referee@
                    },
                    _ => false,
                },
            },
    {
        let active = match find_user(&self.users, referrer) {
            Some(i) => {
                proof {
                    lemma_idx_of(self.users@, referrer@);
                }
                self.users[i].info.status == crate::state::UserStatus::Active
            },
            None => false,
        };
        if !active {
            return Err(ContractError::InvalidReferrer { referrer: referrer.to_owned() });
        }
        if self.user_exists(referee) {
            return Err(ContractError::UserAlreadyRegistered { user: referee.to_owned() });
        }
        self.check_circular_referral(referrer, referee)
    }

    /// Validates a prospective edge and, when it is acceptable, records the
    /// referrer-side bookkeeping.  (The parent edge itself is stored on the
    /// referee's record when the referee registers.)
    pub fn establish_referral_relation(&mut self, referrer: &str, referee: &str, now: u64) -> (r:
        Result<(), ContractError>)
        requires
            old(self).wf(),
            crate::state::referrer_counters_ok(old(self).users@, referrer@),
        ensures
            final(self).wf(),
            final(self).config == old(self).config,
            final(self).rules == old(self).rules,
            final(self).leaderboard == old(self).leaderboard,
            final(self).reentrancy_lock == old(self).reentrancy_lock,
            match r {
                Ok(()) => {
                    let i = idx_of(old(self).users@, referrer@);
                    &&& registered_active(old(self).users@, referrer@)
                    &&& !contains_id(old(self).users@, referee@)
                    &&& !ancestors_of(old(self).users@, referrer@).contains(referee@)
                    &&& final(self).users@.len() == old(self).users@.len()
                    &&& forall|j: int|
                        0 <= j < old(self).users@.len() && j != i ==> final(self).users@[j] == old(
                            self,
                        ).users@[j]
                    &&& final(self).users@[i].id == old(self).users@[i].id
                    &&& crate::state::referrer_bookkeeping_updated(
                        final(self).users@[i].info,
                        old(self).users@[i].info,
                        referee@,
                        now,
                    )
                },
                Err(e) => {
                    &&& *final(self) == *old(self)
                    &&& match e {
                        ContractError::InvalidReferrer { referrer: rr } => !registered_active(
                            old(self).users@,
                            referrer@,
                        ) && rr@ == referrer@,
                        ContractError::UserAlreadyRegistered { user: u } => registered_active(
                            old(self).users@,
                            referrer@,
                        ) && contains_id(old(self).users@, referee@) && u@ == referee@,
                        ContractError::CircularReferral { referrer: rr, referee: re } => {
                            &&& registered_active(old(self).users@, referrer@)
                            &&& !contains_id(old(self).users@, referee@)
                            &&& ancestors_of(old(self).users@, referrer@).contains(referee@)
                            &&& rr@ == referrer@
                            &&& re@ == referee@
                        },
                        _ => false,
                    }
                },
            },
    {
        match self.validate_referral(referrer, referee) {
            Err(e) => Err(e),
            Ok(()) => {
                let res = self.add_referral_relation(referrer, referee, now);
                proof {
                    if res is Err {
                        assert(false);
                    }
                }
                Ok(())
            },
        }
    }

    /// The ordered ancestor chain of `user`, nearest first, cut off at
    /// `max_depth` (the configured depth when none is given).
    #[verifier::loop_isolation(false)]
    pub fn get_referral_chain(&self, user: &str, max_depth: Option<u32>) -> (r: Vec<String>)
        requires
            self.wf(),
        ensures
            ({
                let depth = match max_depth {
                    Some(d) => d,
                    None => self.config.max_referral_depth,
                };
                let full = if contains_id(self.users@, user@) {
                    chain_from(self.users@, idx_of(self.users@, user@), depth as nat)
                } else {
                    Seq::empty()
                };
                &&& r@.len() == full.len()
                &&& forall|k: int| 0 <= k < full.len() ==> (#[trigger] r@[k])@ == full[k]
            }),
    {
        let ghost users = self.users@;
        let depth = match max_depth {
            Some(d) => d,
            None => self.config.max_referral_depth,
        };
        let mut out: Vec<String> = Vec::new();
        let mut cur: usize;
        match find_user(&self.users, user) {
            Some(i) => {
                cur = i;
                proof {
                    lemma_idx_of(users, user@);
                }
            },
            None => {
                return out;
            },
        }
        let ghost whole = chain_from(users, cur as int, depth as nat);
        let mut level: u32 = 0;
        while level < depth
            invariant
                self.wf(),
                users == self.users@,
                0 <= cur < users.len(),
                level <= depth,
                whole == chain_from(users, idx_of(users, user@), depth as nat),
                contains_id(users, user@),
                whole =~= out@.map_values(|s: String| s@) + chain_from(
                    users,
                    cur as int,
                    (depth - level) as nat,
                ),
                out@.len() == level,
            decreases depth - level,
        {
            let parent = match &self.users[cur].info.recommender {
                Some(p) => p.clone(),
                None => {
                    proof {
                        assert(chain_from(users, cur as int, (depth - level) as nat)
                            =~= Seq::<Seq<char>>::empty());
                        assert(whole =~= out@.map_values(|s: String| s@));
                    }
                    return out;
                },
            };
            let next = match find_user(&self.users, parent.as_str()) {
                Some(j) => j,
                None => {
                    proof {
                        let j = lemma_parent_index(users, cur as int);
                        assert(false);
                    }
                    return out;
                },
            };
            proof {
                let j = lemma_parent_index(users, cur as int);
                lemma_idx_of(users, parent@);
                assert(next as int == j);
                assert(chain_from(users, cur as int, (depth - level) as nat) == seq![parent@]
                    + chain_from(users, j, (depth - level - 1) as nat));
            }
            let ghost out_pre = out@;
            out.push(parent);
            proof {
                assert(out@.map_values(|s: String| s@) =~= out_pre.map_values(|s: String| s@)
                    + seq![out@.last()@]);
                assert(whole =~= out@.map_values(|s: String| s@) + chain_from(
                    users,
                    next as int,
                    (depth - level - 1) as nat,
                ));
            }
            cur = next;
            level = level + 1;
        }
        proof {
            assert(chain_from(users, cur as int, 0) =~= Seq::<Seq<char>>::empty());
            assert(whole =~= out@.map_values(|s: String| s@));
        }
        out
    }
}

/// A chain is never longer than its fuel.
pub proof fn lemma_chain_len(users: Seq<UserEntry>, i: int, fuel: nat)
    ensures
        chain_from(users, i, fuel).len() <= fuel,
    decreases fuel,
{
    if fuel == 0 || !(0 <= i < users.len()) {
    } else {
        match users[i].info.recommender {
            Some(p) => lemma_chain_len(users, idx_of(users, p@), (fuel - 1) as nat),
            None => {},
        }
    }
}

/// Every id on a chain belongs to a registered user.
pub proof fn lemma_chain_registered(users: Seq<UserEntry>, i: int, fuel: nat)
    requires
        unique_ids(users),
        parents_ok(users),
    ensures
        forall|k: int|
            0 <= k < chain_from(users, i, fuel).len() ==> contains_id(
                users,
                #[trigger] chain_from(users, i, fuel)[k],
            ),
    decreases fuel,
{
    if fuel == 0 || !(0 <= i < users.len()) {
    } else {
        match users[i].info.recommender {
            Some(p) => {
                let j = lemma_parent_index(users, i);
                lemma_chain_registered(users, j, (fuel - 1) as nat);
                let c = chain_from(users, i, fuel);
                let rest = chain_from(users, j, (fuel - 1) as nat);
                assert forall|k: int| 0 <= k < c.len() implies contains_id(
                    users,
                    #[trigger] c[k],
                ) by {
                    if k == 0 {
                        assert(c[0] == p@);
                    } else {
                        assert(c[k] == rest[k - 1]);
                    }
                }
            },
            None => {},
        }
    }
}

/// One step of the parent relation between arena indices.
pub open spec fn is_parent_step(users: Seq<UserEntry>, i: int, j: int) -> bool {
    &&& 0 <= i < users.len()
    &&& 0 <= j < users.len()
    &&& users[i].info.recommender is Some
    &&& users[j].id@ == users[i].info.recommender.unwrap()@
}

/// Along a chain of parent steps the arena index strictly descends.
proof fn lemma_path_descends(users: Seq<UserEntry>, path: Seq<int>)
    requires
        unique_ids(users),
        parents_ok(users),
        path.len() >= 1,
        forall|k: int|
            0 <= k < path.len() - 1 ==> #[trigger] is_parent_step(users, path[k], path[k + 1]),
    ensures
        path.len() >= 2 ==> path[path.len() - 1] < path[0],
    decreases path.len(),
{
    if path.len() >= 2 {
        let k0: int = 0;
        assert(is_parent_step(users, path[k0], path[k0 + 1]));
        let j = lemma_parent_index(users, path[0]);
        assert(users[path[1]].id@ == users[j].id@);
        if path[1] != j {
            assert(users[path[1]].id@ != users[j].id@);
        }
        assert(path[1] < path[0]);
        let tail = path.drop_first();
        assert forall|k: int| 0 <= k < tail.len() - 1 implies #[trigger] is_parent_step(
            users,
            tail[k],
            tail[k + 1],
        ) by {
            assert(tail[k] == path[k + 1]);
            assert(tail[k + 1] == path[k + 2]);
            assert(is_parent_step(users, path[k + 1], path[k + 2]));
        }
        lemma_path_descends(users, tail);
    }
}

/// The referral relation of a well-formed registry is acyclic: no non-empty
/// chain of parent steps leads from a user back to itself.  Registration
/// preserves well-formedness, so this holds after any sequence of
/// registrations.
pub proof fn lemma_no_referral_cycle(r: Registry, path: Seq<int>)
    requires
        r.wf(),
        path.len() >= 2,
        forall|k: int|
            0 <= k < path.len() - 1 ==> #[trigger] is_parent_step(r.users@, path[k], path[k + 1]),
    ensures
        path[0] != path[path.len() - 1],
{
    lemma_path_descends(r.users@, path);
}

} // verus!
