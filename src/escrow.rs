use vstd::prelude::*;
use std::collections::HashMap;
use crate::types::{Address, PackageStatus, Package, Error, Transfer};
use crate::model::{
    EscrowModel, committed, contribution, locked_map, lemma_create_wf, lemma_set_status_wf,
    lemma_release_wf, lemma_locked_map_keys, lemma_locked_map_has, lemma_committed_prefix,
    lemma_committed_prefix_le, lemma_committed_absent,
};

verus! {

broadcast use vstd::std_specs::hash::group_hash_axioms;

/// The escrow engine: the administrator, every package ever created (none is
/// deleted) and the per-asset locked-funds totals.
pub struct AidEscrow {
    admin: Option<Address>,
    packages: Vec<Package>,
    locked: HashMap<u64, i128>,
}

impl View for AidEscrow {
    type V = EscrowModel;

    closed spec fn view(&self) -> EscrowModel {
        EscrowModel { admin: self.admin, packages: self.packages@, locked: self.locked@ }
    }
}

/// The total recorded under `a` in a map of per-asset sums; absent counts zero.
spec fn sum_of(m: Map<u64, i128>, a: Address) -> int {
    if m.contains_key(a.id) {
        m[a.id] as int
    } else {
        0
    }
}

impl AidEscrow {
    /// An escrow with no administrator, no packages and nothing locked.
    pub fn new() -> (r: AidEscrow)
        ensures
            r@ == EscrowModel::empty(),
            r@.wf(),
    {
        let r = AidEscrow { admin: None, packages: Vec::new(), locked: HashMap::new() };
        assert(r@.locked =~= Map::empty());
        assert(r@.packages =~= Seq::empty());
        r
    }

    /// Sets the administrator, once.
    pub fn init(&mut self, admin: Address) -> (r: Result<(), Error>)
        requires
            old(self)@.wf(),
        ensures
            (final(self)@, r) == old(self)@.init_next(admin),
            final(self)@.wf(),
    {
        if self.admin.is_some() {
            return Err(Error::AlreadyInitialized);
        }
        self.admin = Some(admin);
        proof {
            assert(self@.packages == old(self)@.packages);
            assert(self@.locked == old(self)@.locked);
            assert forall|a: Address| #[trigger] crate::model::committed(self@.packages, a) <= self@.locked_of(a) by {
                assert(crate::model::committed(old(self)@.packages, a) <= old(self)@.locked_of(a));
            }
        }
        Ok(())
    }

    pub fn get_admin(&self) -> (r: Result<Address, Error>)
        ensures
            r == (match self@.admin {
                Some(a) => Ok(a),
                None => Err(Error::NotInitialized),
            }),
    {
        match self.admin {
            Some(a) => Ok(a),
            None => Err(Error::NotInitialized),
        }
    }

    /// Validates a deposit of `amount` of `asset` from `from` into the pool and
    /// returns the transfer that the host must make. The locked totals are not
    /// touched: a deposit only grows the balance that creation is checked against.
    pub fn fund(&self, asset: Address, from: Address, amount: i128, caller: Address) -> (r: Result<
        Transfer,
        Error,
    >)
        ensures
            r == EscrowModel::fund_result(asset, from, amount, caller),
    {
        if amount <= 0 {
            return Err(Error::InvalidAmount);
        }
        if caller != from {
            return Err(Error::NotAuthorized);
        }
        Ok(Transfer::Deposit { asset, from, amount })
    }

    /// The locked total of `asset`.
    pub fn locked(&self, asset: Address) -> (r: i128)
        ensures
            r == self@.locked_of(asset),
    {
        match self.locked.get(&asset.id) {
            Some(v) => *v,
            None => 0,
        }
    }

    /// The checks that a creation makes before it looks at the pool's balance:
    /// the caller is the administrator, the amount is positive and the id is
    /// new. A host can run them before it reads the balance.
    pub fn check_create(&self, id: u64, amount: i128, caller: Address) -> (r: Result<(), Error>)
        requires
            self@.wf(),
        ensures
            r == (match self@.create_precheck(id, amount, caller) {
                Some(e) => Err(e),
                None => Ok(()),
            }),
    {
        let admin = match self.get_admin() {
            Ok(a) => a,
            Err(e) => return Err(e),
        };
        if caller != admin {
            return Err(Error::NotAuthorized);
        }
        if amount <= 0 {
            return Err(Error::InvalidAmount);
        }
        if self.find(id).is_some() {
            return Err(Error::PackageIdExists);
        }
        Ok(())
    }

    /// Creates package `id` promising `amount` of `asset` to `recipient`, locking
    /// that amount out of the pool's available balance (`pool_balance` minus the
    /// asset's locked total). Only the administrator may create packages.
    pub fn create_package(
        &mut self,
        id: u64,
        recipient: Address,
        amount: i128,
        asset: Address,
        expires_at: u64,
        caller: Address,
        now: u64,
        pool_balance: i128,
    ) -> (r: Result<u64, Error>)
        requires
            old(self)@.wf(),
        ensures
            (final(self)@, r) == old(self)@.create_next(
                id,
                recipient,
                amount,
                asset,
                expires_at,
                caller,
                now,
                pool_balance,
            ),
            final(self)@.wf(),
            r is Ok ==> final(self)@.lookup(id) == Ok::<Package, Error>(
                Package {
                    id,
                    recipient,
                    amount,
                    token: asset,
                    status: PackageStatus::Created,
                    created_at: now,
                    expires_at,
                },
            ),
    {
        match self.check_create(id, amount, caller) {
            Ok(()) => {},
            Err(e) => return Err(e),
        }
        let current_locked = self.locked(asset);
        proof {
            if self.locked@.contains_key(asset.id) {
                assert(self.locked@[asset.id] >= 0);
            }
        }
        if pool_balance < current_locked || pool_balance - current_locked < amount {
            return Err(Error::InsufficientFunds);
        }
        self.locked.insert(asset.id, current_locked + amount);
        self.packages.push(Package {
            id,
            recipient,
            amount,
            token: asset,
            status: PackageStatus::Created,
            created_at: now,
            expires_at,
        });
        proof {
            lemma_create_wf(old(self)@, id, recipient, amount, asset, expires_at, caller, now, pool_balance);
        }
        Ok(id)
    }

    /// The recipient takes the package's funds. A package past its expiry is
    /// marked expired instead, and the call fails; its locked amount stays locked.
    pub fn claim(&mut self, id: u64, caller: Address, now: u64) -> (r: Result<Transfer, Error>)
        requires
            old(self)@.wf(),
        ensures
            (final(self)@, r) == old(self)@.claim_next(id, caller, now),
            final(self)@.wf(),
    {
        let i = match self.find(id) {
            Some(i) => i,
            None => return Err(Error::PackageNotFound),
        };
        let p = self.packages[i];
        if p.status != PackageStatus::Created {
            return Err(Error::PackageNotActive);
        }
        if p.expires_at > 0 && now > p.expires_at {
            self.set_status(i, PackageStatus::Expired);
            proof {
                lemma_set_status_wf(old(self)@, id, PackageStatus::Expired);
            }
            return Err(Error::PackageExpired);
        }
        if caller != p.recipient {
            return Err(Error::NotAuthorized);
        }
        self.set_status(i, PackageStatus::Claimed);
        proof {
            lemma_release_wf(old(self)@, self@, id, PackageStatus::Claimed);
        }
        self.decrement_locked(p.token, p.amount);
        Ok(Transfer::Payout { asset: p.token, to: p.recipient, amount: p.amount })
    }

    /// The administrator pays an open package to its recipient, whether or not
    /// it is past its expiry.
    pub fn disburse(&mut self, id: u64, caller: Address) -> (r: Result<Transfer, Error>)
        requires
            old(self)@.wf(),
        ensures
            (final(self)@, r) == old(self)@.disburse_next(id, caller),
            final(self)@.wf(),
    {
        let admin = match self.get_admin() {
            Ok(a) => a,
            Err(e) => return Err(e),
        };
        if caller != admin {
            return Err(Error::NotAuthorized);
        }
        let i = match self.find(id) {
            Some(i) => i,
            None => return Err(Error::PackageNotFound),
        };
        let p = self.packages[i];
        if p.status != PackageStatus::Created {
            return Err(Error::PackageNotActive);
        }
        self.set_status(i, PackageStatus::Claimed);
        proof {
            lemma_release_wf(old(self)@, self@, id, PackageStatus::Claimed);
        }
        self.decrement_locked(p.token, p.amount);
        Ok(Transfer::Payout { asset: p.token, to: p.recipient, amount: p.amount })
    }

    /// The administrator cancels an open package; its amount returns to the
    /// available pool and no funds move.
    pub fn revoke(&mut self, id: u64, caller: Address) -> (r: Result<(), Error>)
        requires
            old(self)@.wf(),
        ensures
            (final(self)@, r) == old(self)@.revoke_next(id, caller),
            final(self)@.wf(),
    {
        let admin = match self.get_admin() {
            Ok(a) => a,
            Err(e) => return Err(e),
        };
        if caller != admin {
            return Err(Error::NotAuthorized);
        }
        let i = match self.find(id) {
            Some(i) => i,
            None => return Err(Error::PackageNotFound),
        };
        let p = self.packages[i];
        if p.status != PackageStatus::Created {
            return Err(Error::InvalidState);
        }
        self.set_status(i, PackageStatus::Cancelled);
        proof {
            lemma_release_wf(old(self)@, self@, id, PackageStatus::Cancelled);
        }
        self.decrement_locked(p.token, p.amount);
        Ok(())
    }

    /// The administrator takes back the amount of an expired or cancelled
    /// package; an open package past its expiry is expired and released first.
    pub fn refund(&mut self, id: u64, caller: Address, now: u64) -> (r: Result<Transfer, Error>)
        requires
            old(self)@.wf(),
        ensures
            (final(self)@, r) == old(self)@.refund_next(id, caller, now),
            final(self)@.wf(),
    {
        let admin = match self.get_admin() {
            Ok(a) => a,
            Err(e) => return Err(e),
        };
        if caller != admin {
            return Err(Error::NotAuthorized);
        }
        let i = match self.find(id) {
            Some(i) => i,
            None => return Err(Error::PackageNotFound),
        };
        let p = self.packages[i];
        if p.status == PackageStatus::Created {
            if p.expires_at > 0 && now > p.expires_at {
                self.set_status(i, PackageStatus::Refunded);
                proof {
                    lemma_release_wf(old(self)@, self@, id, PackageStatus::Refunded);
                }
                self.decrement_locked(p.token, p.amount);
            } else {
                return Err(Error::InvalidState);
            }
        } else if p.status == PackageStatus::Claimed || p.status == PackageStatus::Refunded {
            return Err(Error::InvalidState);
        } else {
            self.set_status(i, PackageStatus::Refunded);
            proof {
                lemma_set_status_wf(old(self)@, id, PackageStatus::Refunded);
            }
        }
        Ok(Transfer::Payout { asset: p.token, to: admin, amount: p.amount })
    }

    /// The record of package `id`. Reading never changes the escrow: in
    /// particular, a package past its expiry is reported as it is stored.
    pub fn get_package(&self, id: u64) -> (r: Result<Package, Error>)
        requires
            self@.wf(),
        ensures
            r == self@.lookup(id),
    {
        match self.find(id) {
            Some(i) => Ok(self.packages[i]),
            None => Err(Error::PackageNotFound),
        }
    }

    /// Rebuilds an escrow from stored parts: the administrator, the package
    /// records and the locked totals as `(asset, total)` entries (a later entry
    /// for an asset replaces an earlier one). Succeeds exactly when the parts
    /// form a well-formed escrow.
    pub fn restore(admin: Option<Address>, packages: Vec<Package>, locked: Vec<(Address, i128)>) -> (r:
        Option<AidEscrow>)
        ensures
            r is Some <==> (EscrowModel { admin, packages: packages@, locked: locked_map(locked@) }).wf(),
            r matches Some(e) ==> e@ == (EscrowModel { admin, packages: packages@, locked: locked_map(locked@) }),
    {
        let ghost target = EscrowModel { admin, packages: packages@, locked: locked_map(locked@) };
        let mut lm: HashMap<u64, i128> = HashMap::new();
        let mut i: usize = 0;
        while i < locked.len()
            invariant
                target == (EscrowModel { admin, packages: packages@, locked: locked_map(locked@) }),
                i <= locked@.len(),
                lm@ == locked_map(locked@.subrange(0, i as int)),
            decreases locked@.len() - i,
        {
            proof {
                assert(locked@.subrange(0, i + 1).drop_last() =~= locked@.subrange(0, i as int));
            }
            lm.insert(locked[i].0.id, locked[i].1);
            i = i + 1;
        }
        proof {
            assert(locked@.subrange(0, locked@.len() as int) =~= locked@);
            lemma_locked_map_keys(locked@);
        }
        let mut i: usize = 0;
        while i < locked.len()
            invariant
                target == (EscrowModel { admin, packages: packages@, locked: locked_map(locked@) }),
                i <= locked@.len(),
                lm@ == locked_map(locked@),
                forall|j: int| 0 <= j < i ==> lm@[#[trigger] locked@[j].0.id] >= 0,
            decreases locked@.len() - i,
        {
            let k = locked[i].0.id;
            proof {
                assert(locked_map(locked@).contains_key(k)) by {
                    lemma_locked_map_has(locked@, i as int);
                }
            }
            match lm.get(&k) {
                Some(v) => {
                    if *v < 0 {
                        proof {
                            assert(target.locked.contains_key(k) && target.locked[k] < 0);
                        }
                        return None;
                    }
                },
                None => {},
            }
            i = i + 1;
        }
        proof {
            assert forall|k: u64| #[trigger] target.locked.contains_key(k) implies target.locked[k] >= 0 by {
                let j = choose|j: int| 0 <= j < locked@.len() && #[trigger] locked@[j].0.id == k;
            }
        }
        let mut seen: std::collections::HashSet<u64> = std::collections::HashSet::new();
        let mut i: usize = 0;
        while i < packages.len()
            invariant
                target == (EscrowModel { admin, packages: packages@, locked: locked_map(locked@) }),
                i <= packages@.len(),
                forall|k: u64| #[trigger] seen@.contains(k)
                    <==> exists|j: int| 0 <= j < i && #[trigger] packages@[j].id == k,
                forall|x: int, y: int|
                    0 <= x < i && 0 <= y < i && #[trigger] packages@[x].id == #[trigger] packages@[y].id ==> x == y,
                forall|j: int| 0 <= j < i ==> #[trigger] packages@[j].amount > 0,
            decreases packages@.len() - i,
        {
            let p = packages[i];
            if p.amount <= 0 {
                return None;
            }
            if seen.contains(&p.id) {
                proof {
                    let j = choose|j: int| 0 <= j < i && #[trigger] packages@[j].id == p.id;
                    assert(packages@[j].id == packages@[i as int].id);
                }
                return None;
            }
            proof {
                assert forall|x: int, y: int|
                    0 <= x < i + 1 && 0 <= y < i + 1 && #[trigger] packages@[x].id == #[trigger] packages@[y].id
                    implies x == y by {
                    if x < i && y == i {
                        assert(seen@.contains(packages@[x].id));
                    }
                    if y < i && x == i {
                        assert(seen@.contains(packages@[y].id));
                    }
                }
            }
            let ghost seen_before = seen@;
            seen.insert(p.id);
            proof {
                assert forall|k: u64| #[trigger] seen@.contains(k)
                    <==> exists|j: int| 0 <= j < i + 1 && #[trigger] packages@[j].id == k by {
                    if k == p.id {
                        assert(packages@[i as int].id == k);
                    } else {
                        assert(seen@.contains(k) == seen_before.contains(k));
                        if exists|j: int| 0 <= j < i + 1 && #[trigger] packages@[j].id == k {
                            let j = choose|j: int| 0 <= j < i + 1 && #[trigger] packages@[j].id == k;
                            assert(j < i);
                            assert(exists|j: int| 0 <= j < i && #[trigger] packages@[j].id == k);
                        }
                    }
                }
            }
            i = i + 1;
        }
        let mut sums: HashMap<u64, i128> = HashMap::new();
        let mut i: usize = 0;
        while i < packages.len()
            invariant
                target == (EscrowModel { admin, packages: packages@, locked: locked_map(locked@) }),
                i <= packages@.len(),
                forall|j: int| 0 <= j < packages@.len() ==> #[trigger] packages@[j].amount > 0,
                forall|a: Address| #[trigger] sum_of(sums@, a) == committed(packages@.subrange(0, i as int), a),
            decreases packages@.len() - i,
        {
            let p = packages[i];
            proof {
                assert forall|a: Address| #[trigger] committed(packages@.subrange(0, i + 1), a)
                    == committed(packages@.subrange(0, i as int), a) + contribution(p, a) by {
                    lemma_committed_prefix(packages@, i as int, a);
                }
            }
            if p.status == PackageStatus::Created {
                let cur: i128 = match sums.get(&p.token.id) {
                    Some(v) => *v,
                    None => 0,
                };
                assert(cur == sum_of(sums@, p.token));
                assert(cur == committed(packages@.subrange(0, i as int), p.token));
                match cur.checked_add(p.amount) {
                    Some(n) => {
                        let ghost before = sums@;
                        sums.insert(p.token.id, n);
                        proof {
                            assert forall|a: Address| #[trigger] sum_of(sums@, a)
                                == committed(packages@.subrange(0, i + 1), a) by {
                                lemma_committed_prefix(packages@, i as int, a);
                                assert(sum_of(before, a) == committed(packages@.subrange(0, i as int), a));
                                if a != p.token {
                                    assert(a.id != p.token.id);
                                }
                            }
                        }
                    },
                    None => {
                        proof {
                            lemma_committed_prefix(packages@, i as int, p.token);
                            lemma_committed_prefix_le(packages@, i + 1, p.token);
                            assert(committed(packages@, p.token) > target.locked_of(p.token));
                        }
                        return None;
                    },
                }
            }
            i = i + 1;
        }
        proof {
            assert(packages@.subrange(0, packages@.len() as int) =~= packages@);
        }
        let mut i: usize = 0;
        while i < packages.len()
            invariant
                target == (EscrowModel { admin, packages: packages@, locked: locked_map(locked@) }),
                i <= packages@.len(),
                lm@ == target.locked,
                forall|a: Address| #[trigger] sum_of(sums@, a) == committed(packages@, a),
                forall|j: int| 0 <= j < i ==> committed(packages@, #[trigger] packages@[j].token)
                    <= target.locked_of(packages@[j].token),
            decreases packages@.len() - i,
        {
            let a = packages[i].token;
            let total: i128 = match sums.get(&a.id) {
                Some(v) => *v,
                None => 0,
            };
            let cap: i128 = match lm.get(&a.id) {
                Some(v) => *v,
                None => 0,
            };
            assert(total == sum_of(sums@, a));
            assert(cap == target.locked_of(a));
            if total > cap {
                proof {
                    assert(committed(target.packages, a) > target.locked_of(a));
                }
                return None;
            }
            i = i + 1;
        }
        proof {
            assert forall|a: Address| #[trigger] committed(target.packages, a) <= target.locked_of(a) by {
                if exists|j: int| 0 <= j < packages@.len() && #[trigger] packages@[j].token == a {
                    let j = choose|j: int| 0 <= j < packages@.len() && #[trigger] packages@[j].token == a;
                    assert(committed(packages@, packages@[j].token) <= target.locked_of(packages@[j].token));
                } else {
                    lemma_committed_absent(packages@, a);
                }
            }
        }
        Some(AidEscrow { admin, packages, locked: lm })
    }

    /// The position of the package stored under `id`.
    fn find(&self, id: u64) -> (r: Option<usize>)
        requires
            self@.wf(),
        ensures
            match r {
                Some(i) => i < self.packages@.len() && self@.index_of(id) == i
                    && self@.has_package(id) && self@.package(id) == self.packages@[i as int],
                None => !self@.has_package(id),
            },
    {
        let mut i: usize = 0;
        while i < self.packages.len()
            invariant
                self@.wf(),
                i <= self.packages@.len(),
                forall|j: int| 0 <= j < i ==> #[trigger] self.packages@[j].id != id,
            decreases self.packages@.len() - i,
        {
            if self.packages[i].id == id {
                proof {
                    assert(self@.packages[i as int].id == id);
                    assert(self@.has_package(id));
                    let k = self@.index_of(id);
                    assert(self@.packages[k].id == id);
                }
                return Some(i);
            }
            i = i + 1;
        }
        None
    }

    /// Moves the package at position `i` to status `st`.
    fn set_status(&mut self, i: usize, st: PackageStatus)
        requires
            old(self)@.wf(),
            i < old(self).packages@.len(),
        ensures
            final(self)@ == old(self)@.set_status(old(self).packages@[i as int].id, st),
    {
        let p = self.packages[i];
        assert(old(self)@.packages[i as int].id == p.id);
        assert(old(self)@.index_of(p.id) == i);
        self.packages.set(i, Package {
            id: p.id,
            recipient: p.recipient,
            amount: p.amount,
            token: p.token,
            status: st,
            created_at: p.created_at,
            expires_at: p.expires_at,
        });
    }

    /// Releases `amount` of `asset` from its locked total, never below zero.
    fn decrement_locked(&mut self, asset: Address, amount: i128)
        requires
            amount >= 0,
        ensures
            final(self)@ == old(self)@.release(asset, amount),
    {
        let current = self.locked(asset);
        let new_locked: i128 = if current > amount { current - amount } else { 0 };
        self.locked.insert(asset.id, new_locked);
    }
}

} // verus!
