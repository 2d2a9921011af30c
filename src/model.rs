use vstd::prelude::*;
use crate::types::{Address, PackageStatus, Package, Error, Transfer, Call};

verus! {

/// The abstract state of the escrow: the administrator, the package records in
/// order of creation, and the locked-funds total of each asset, keyed by the
/// asset's id.
pub struct EscrowModel {
    pub admin: Option<Address>,
    pub packages: Seq<Package>,
    pub locked: Map<u64, i128>,
}

/// Whether `p` is past its expiry at time `now`.
pub open spec fn is_expired(p: Package, now: u64) -> bool {
    p.expires_at > 0 && now > p.expires_at
}

/// What `p` commits of `asset`: its amount while it is open, nothing otherwise.
pub open spec fn contribution(p: Package, asset: Address) -> int {
    if p.status == PackageStatus::Created && p.token == asset {
        p.amount as int
    } else {
        0
    }
}

/// The total that the open packages of `s` commit of `asset`.
pub open spec fn committed(s: Seq<Package>, asset: Address) -> int
    decreases s.len(),
{
    if s.len() == 0 {
        0
    } else {
        committed(s.drop_last(), asset) + contribution(s.last(), asset)
    }
}

/// The funds that a successful call moves into (positive) or out of (negative)
/// the pool of `asset`.
pub open spec fn pool_delta(t: Transfer, asset: Address) -> int {
    match t {
        Transfer::Deposit { asset: a, amount, .. } => if a == asset { amount as int } else { 0 },
        Transfer::Payout { asset: a, amount, .. } => if a == asset { -amount } else { 0 },
    }
}

impl EscrowModel {
    pub open spec fn empty() -> EscrowModel {
        EscrowModel { admin: None, packages: Seq::empty(), locked: Map::empty() }
    }

    /// The locked total of `asset`; an asset never locked counts zero.
    pub open spec fn locked_of(self, asset: Address) -> int {
        if self.locked.contains_key(asset.id) {
            self.locked[asset.id] as int
        } else {
            0
        }
    }

    pub open spec fn has_package(self, id: u64) -> bool {
        exists|i: int| 0 <= i < self.packages.len() && #[trigger] self.packages[i].id == id
    }

    pub open spec fn index_of(self, id: u64) -> int {
        choose|i: int| 0 <= i < self.packages.len() && #[trigger] self.packages[i].id == id
    }

    /// The record stored under `id` (meaningful where `has_package(id)`).
    pub open spec fn package(self, id: u64) -> Package {
        self.packages[self.index_of(id)]
    }

    /// Ids are unique, amounts positive, locked totals non-negative, and each
    /// asset's locked total covers what its open packages commit.
    pub open spec fn wf(self) -> bool {
        &&& forall|i: int, j: int|
            0 <= i < self.packages.len() && 0 <= j < self.packages.len()
                && #[trigger] self.packages[i].id == #[trigger] self.packages[j].id ==> i == j
        &&& forall|i: int| 0 <= i < self.packages.len() ==> #[trigger] self.packages[i].amount > 0
        &&& forall|k: u64| #[trigger] self.locked.contains_key(k) ==> self.locked[k] >= 0
        &&& forall|a: Address| #[trigger] committed(self.packages, a) <= self.locked_of(a)
    }

    pub open spec fn set_locked(self, asset: Address, v: int) -> EscrowModel {
        EscrowModel { admin: self.admin, packages: self.packages, locked: self.locked.insert(asset.id, v as i128) }
    }

    /// Releases `amount` of `asset` from the locked total, never below zero.
    pub open spec fn release(self, asset: Address, amount: i128) -> EscrowModel {
        let cur = self.locked_of(asset);
        self.set_locked(asset, if cur > amount { cur - amount } else { 0 })
    }

    pub open spec fn set_status(self, id: u64, st: PackageStatus) -> EscrowModel {
        let p = self.package(id);
        EscrowModel {
            admin: self.admin,
            packages: self.packages.update(
                self.index_of(id),
                Package {
                    id: p.id,
                    recipient: p.recipient,
                    amount: p.amount,
                    token: p.token,
                    status: st,
                    created_at: p.created_at,
                    expires_at: p.expires_at,
                },
            ),
            locked: self.locked,
        }
    }

    /// The administrator check that opens every privileged operation.
    pub open spec fn admin_check(self, caller: Address) -> Option<Error> {
        match self.admin {
            None => Some(Error::NotInitialized),
            Some(a) => if a != caller { Some(Error::NotAuthorized) } else { None },
        }
    }

    pub open spec fn init_next(self, admin: Address) -> (EscrowModel, Result<(), Error>) {
        if self.admin is Some {
            (self, Err(Error::AlreadyInitialized))
        } else {
            (EscrowModel { admin: Some(admin), packages: self.packages, locked: self.locked }, Ok(()))
        }
    }

    pub open spec fn fund_result(asset: Address, from: Address, amount: i128, caller: Address) -> Result<Transfer, Error> {
        if amount <= 0 {
            Err(Error::InvalidAmount)
        } else if caller != from {
            Err(Error::NotAuthorized)
        } else {
            Ok(Transfer::Deposit { asset, from, amount })
        }
    }

    /// The first failing check of a creation that comes before the solvency
    /// check, if any.
    pub open spec fn create_precheck(self, id: u64, amount: i128, caller: Address) -> Option<Error> {
        if let Some(e) = self.admin_check(caller) {
            Some(e)
        } else if amount <= 0 {
            Some(Error::InvalidAmount)
        } else if self.has_package(id) {
            Some(Error::PackageIdExists)
        } else {
            None
        }
    }

    pub open spec fn create_next(
        self,
        id: u64,
        recipient: Address,
        amount: i128,
        asset: Address,
        expires_at: u64,
        caller: Address,
        now: u64,
        pool_balance: i128,
    ) -> (EscrowModel, Result<u64, Error>) {
        if let Some(e) = self.create_precheck(id, amount, caller) {
            (self, Err(e))
        } else if pool_balance < self.locked_of(asset) + amount {
            (self, Err(Error::InsufficientFunds))
        } else {
            let p = Package {
                id,
                recipient,
                amount,
                token: asset,
                status: PackageStatus::Created,
                created_at: now,
                expires_at,
            };
            let m = self.set_locked(asset, self.locked_of(asset) + amount);
            (EscrowModel { admin: m.admin, packages: m.packages.push(p), locked: m.locked }, Ok(id))
        }
    }

    pub open spec fn claim_next(self, id: u64, caller: Address, now: u64) -> (EscrowModel, Result<Transfer, Error>) {
        let p = self.package(id);
        if !self.has_package(id) {
            (self, Err(Error::PackageNotFound))
        } else if p.status != PackageStatus::Created {
            (self, Err(Error::PackageNotActive))
        } else if is_expired(p, now) {
            (self.set_status(id, PackageStatus::Expired), Err(Error::PackageExpired))
        } else if caller != p.recipient {
            (self, Err(Error::NotAuthorized))
        } else {
            (
                self.set_status(id, PackageStatus::Claimed).release(p.token, p.amount),
                Ok(Transfer::Payout { asset: p.token, to: p.recipient, amount: p.amount }),
            )
        }
    }

    pub open spec fn disburse_next(self, id: u64, caller: Address) -> (EscrowModel, Result<Transfer, Error>) {
        let p = self.package(id);
        if let Some(e) = self.admin_check(caller) {
            (self, Err(e))
        } else if !self.has_package(id) {
            (self, Err(Error::PackageNotFound))
        } else if p.status != PackageStatus::Created {
            (self, Err(Error::PackageNotActive))
        } else {
            (
                self.set_status(id, PackageStatus::Claimed).release(p.token, p.amount),
                Ok(Transfer::Payout { asset: p.token, to: p.recipient, amount: p.amount }),
            )
        }
    }

    pub open spec fn revoke_next(self, id: u64, caller: Address) -> (EscrowModel, Result<(), Error>) {
        let p = self.package(id);
        if let Some(e) = self.admin_check(caller) {
            (self, Err(e))
        } else if !self.has_package(id) {
            (self, Err(Error::PackageNotFound))
        } else if p.status != PackageStatus::Created {
            (self, Err(Error::InvalidState))
        } else {
            (self.set_status(id, PackageStatus::Cancelled).release(p.token, p.amount), Ok(()))
        }
    }

    /// An open package past its expiry is released and refunded in one step;
    /// an expired or cancelled one is refunded without touching the locked
    /// total (it was released before, or, after a failed claim, never).
    pub open spec fn refund_next(self, id: u64, caller: Address, now: u64) -> (EscrowModel, Result<Transfer, Error>) {
        let p = self.package(id);
        let payout = Transfer::Payout { asset: p.token, to: caller, amount: p.amount };
        if let Some(e) = self.admin_check(caller) {
            (self, Err(e))
        } else if !self.has_package(id) {
            (self, Err(Error::PackageNotFound))
        } else if p.status == PackageStatus::Created {
            if is_expired(p, now) {
                (self.set_status(id, PackageStatus::Refunded).release(p.token, p.amount), Ok(payout))
            } else {
                (self, Err(Error::InvalidState))
            }
        } else if p.status == PackageStatus::Claimed || p.status == PackageStatus::Refunded {
            (self, Err(Error::InvalidState))
        } else {
            (self.set_status(id, PackageStatus::Refunded), Ok(payout))
        }
    }

    pub open spec fn lookup(self, id: u64) -> Result<Package, Error> {
        if self.has_package(id) {
            Ok(self.package(id))
        } else {
            Err(Error::PackageNotFound)
        }
    }
}

/// The effect of one call made by `caller` at time `now`: the next state, and
/// on success the transfer that the host carries out, if any.
pub open spec fn step(m: EscrowModel, call: Call, caller: Address, now: u64) -> (EscrowModel, Result<Option<Transfer>, Error>) {
    match call {
        Call::Init { admin } => {
            let (n, r) = m.init_next(admin);
            (n, match r { Ok(_) => Ok(None), Err(e) => Err(e) })
        },
        Call::Fund { asset, from, amount } => {
            (m, match EscrowModel::fund_result(asset, from, amount, caller) { Ok(t) => Ok(Some(t)), Err(e) => Err(e) })
        },
        Call::CreatePackage { id, recipient, amount, asset, expires_at, pool_balance } => {
            let (n, r) = m.create_next(id, recipient, amount, asset, expires_at, caller, now, pool_balance);
            (n, match r { Ok(_) => Ok(None), Err(e) => Err(e) })
        },
        Call::Claim { id } => {
            let (n, r) = m.claim_next(id, caller, now);
            (n, match r { Ok(t) => Ok(Some(t)), Err(e) => Err(e) })
        },
        Call::Disburse { id } => {
            let (n, r) = m.disburse_next(id, caller);
            (n, match r { Ok(t) => Ok(Some(t)), Err(e) => Err(e) })
        },
        Call::Revoke { id } => {
            let (n, r) = m.revoke_next(id, caller);
            (n, match r { Ok(_) => Ok(None), Err(e) => Err(e) })
        },
        Call::Refund { id } => {
            let (n, r) = m.refund_next(id, caller, now);
            (n, match r { Ok(t) => Ok(Some(t)), Err(e) => Err(e) })
        },
        Call::GetPackage { id } => {
            (m, match m.lookup(id) { Ok(_) => Ok(None), Err(e) => Err(e) })
        },
    }
}

/// Appending a package adds its own contribution to the committed total.
pub proof fn lemma_committed_push(s: Seq<Package>, p: Package, asset: Address)
    ensures
        committed(s.push(p), asset) == committed(s, asset) + contribution(p, asset),
{
    assert(s.push(p).drop_last() =~= s);
}

/// Replacing one package changes the committed total by the difference of
/// the two contributions.
pub proof fn lemma_committed_update(s: Seq<Package>, i: int, p: Package, asset: Address)
    requires
        0 <= i < s.len(),
    ensures
        committed(s.update(i, p), asset) == committed(s, asset) - contribution(s[i], asset)
            + contribution(p, asset),
    decreases s.len(),
{
    let t = s.update(i, p);
    if i == s.len() - 1 {
        assert(t.drop_last() =~= s.drop_last());
    } else {
        assert(t.drop_last() =~= s.drop_last().update(i, p));
        lemma_committed_update(s.drop_last(), i, p, asset);
    }
}

/// A status change of a stored package keeps the model well formed, provided
/// the locked total of its asset drops by at most its former contribution.
pub proof fn lemma_set_status_wf(m: EscrowModel, id: u64, st: PackageStatus)
    requires
        m.wf(),
        m.has_package(id),
    ensures
        m.set_status(id, st).packages.len() == m.packages.len(),
        m.set_status(id, st).has_package(id),
        m.set_status(id, st).index_of(id) == m.index_of(id),
        m.set_status(id, st).package(id).status == st,
        forall|a: Address| #[trigger] committed(m.set_status(id, st).packages, a)
            == committed(m.packages, a) - contribution(m.package(id), a)
            + contribution(m.set_status(id, st).package(id), a),
        st != PackageStatus::Created ==> m.set_status(id, st).wf(),
        forall|other: u64| #[trigger] m.set_status(id, st).has_package(other) == m.has_package(other),
        forall|other: u64| other != id && m.has_package(other)
            ==> #[trigger] m.set_status(id, st).package(other) == m.package(other),
{
    let i = m.index_of(id);
    let n = m.set_status(id, st);
    assert(0 <= i < m.packages.len() && m.packages[i].id == id);
    assert(n.packages[i].id == id);
    assert(n.has_package(id));
    assert(n.index_of(id) == i);
    assert forall|a: Address| #[trigger] committed(n.packages, a)
        == committed(m.packages, a) - contribution(m.package(id), a)
        + contribution(n.package(id), a) by {
        lemma_committed_update(m.packages, i, n.packages[i], a);
    }
    if st != PackageStatus::Created {
        assert forall|a: Address| #[trigger] committed(n.packages, a) <= n.locked_of(a) by {
            assert(committed(m.packages, a) <= m.locked_of(a));
            lemma_committed_update(m.packages, i, n.packages[i], a);
        }
        assert forall|x: int, y: int|
            0 <= x < n.packages.len() && 0 <= y < n.packages.len()
                && #[trigger] n.packages[x].id == #[trigger] n.packages[y].id implies x == y by {
            assert(m.packages[x].id == n.packages[x].id);
            assert(m.packages[y].id == n.packages[y].id);
        }
        assert forall|x: int| 0 <= x < n.packages.len() implies #[trigger] n.packages[x].amount > 0 by {
            assert(m.packages[x].amount == n.packages[x].amount);
        }
    }
    assert forall|other: u64| #[trigger] n.has_package(other) == m.has_package(other) by {
        if m.has_package(other) {
            let j = m.index_of(other);
            assert(n.packages[j].id == other);
        }
        if n.has_package(other) {
            let j = n.index_of(other);
            assert(m.packages[j].id == other);
        }
    }
    assert forall|other: u64| other != id && m.has_package(other)
        implies #[trigger] n.package(other) == m.package(other) by {
        let j = m.index_of(other);
        assert(n.packages[j].id == other);
        assert(n.index_of(other) == j);
    }
}

/// Releasing a package's amount from its asset keeps the locked total of every
/// asset above what the remaining open packages commit.
pub proof fn lemma_release_wf(m: EscrowModel, n: EscrowModel, id: u64, st: PackageStatus)
    requires
        m.wf(),
        m.has_package(id),
        m.package(id).status == PackageStatus::Created,
        st != PackageStatus::Created,
        n == m.set_status(id, st),
    ensures
        n.release(m.package(id).token, m.package(id).amount).wf(),
        n.release(m.package(id).token, m.package(id).amount).locked_of(m.package(id).token)
            == m.locked_of(m.package(id).token) - m.package(id).amount,
        forall|a: Address| a != m.package(id).token
            ==> #[trigger] n.release(m.package(id).token, m.package(id).amount).locked_of(a)
                == m.locked_of(a),
{
    let p = m.package(id);
    lemma_set_status_wf(m, id, st);
    let r = n.release(p.token, p.amount);
    assert(committed(n.packages, p.token) == committed(m.packages, p.token) - p.amount);
    assert(committed(m.packages, p.token) <= m.locked_of(p.token));
    lemma_committed_nonneg(n.packages, p.token);
    assert forall|a: Address| #[trigger] committed(r.packages, a) <= r.locked_of(a) by {
        if a != p.token {
            assert(a.id != p.token.id);
        }
    }
    assert forall|a: Address| a != p.token implies #[trigger] r.locked_of(a) == m.locked_of(a) by {
        assert(a.id != p.token.id);
    }
}

/// Open packages with positive amounts commit a non-negative total.
pub proof fn lemma_committed_nonneg(s: Seq<Package>, asset: Address)
    requires
        forall|i: int| 0 <= i < s.len() ==> #[trigger] s[i].amount > 0,
    ensures
        committed(s, asset) >= 0,
    decreases s.len(),
{
    if s.len() > 0 {
        lemma_committed_nonneg(s.drop_last(), asset);
    }
}

/// A successful creation keeps the model well formed and locks exactly the
/// new package's amount.
pub proof fn lemma_create_wf(
    m: EscrowModel,
    id: u64,
    recipient: Address,
    amount: i128,
    asset: Address,
    expires_at: u64,
    caller: Address,
    now: u64,
    pool_balance: i128,
)
    requires
        m.wf(),
        m.create_next(id, recipient, amount, asset, expires_at, caller, now, pool_balance).1 is Ok,
    ensures
        ({
            let n = m.create_next(id, recipient, amount, asset, expires_at, caller, now, pool_balance).0;
            &&& n.wf()
            &&& n.has_package(id)
            &&& n.package(id) == (Package {
                id,
                recipient,
                amount,
                token: asset,
                status: PackageStatus::Created,
                created_at: now,
                expires_at,
            })
            &&& n.locked_of(asset) == m.locked_of(asset) + amount
            &&& forall|a: Address| a != asset ==> #[trigger] n.locked_of(a) == m.locked_of(a)
            &&& forall|other: u64| #[trigger] n.has_package(other) == (m.has_package(other) || other == id)
            &&& forall|other: u64| other != id && m.has_package(other)
                ==> #[trigger] n.package(other) == m.package(other)
        }),
{
    let n = m.create_next(id, recipient, amount, asset, expires_at, caller, now, pool_balance).0;
    let p = n.packages.last();
    let len = m.packages.len();
    lemma_committed_nonneg(m.packages, asset);
    assert(n.packages == m.packages.push(p));
    assert(n.packages[len as int].id == id);
    assert(n.index_of(id) == len) by {
        let k = n.index_of(id);
        if k != len {
            assert(m.packages[k].id == id);
        }
    }
    assert forall|a: Address| #[trigger] committed(n.packages, a) <= n.locked_of(a) by {
        lemma_committed_push(m.packages, p, a);
        assert(committed(m.packages, a) <= m.locked_of(a));
        if a != asset {
            assert(a.id != asset.id);
        }
    }
    assert forall|a: Address| a != asset implies #[trigger] n.locked_of(a) == m.locked_of(a) by {
        assert(a.id != asset.id);
    }
    assert forall|other: u64| #[trigger] n.has_package(other) == (m.has_package(other) || other == id) by {
        if m.has_package(other) {
            let j = m.index_of(other);
            assert(n.packages[j].id == other);
        }
        if n.has_package(other) && other != id {
            let j = n.index_of(other);
            assert(m.packages[j].id == other);
        }
    }
    assert forall|other: u64| other != id && m.has_package(other)
        implies #[trigger] n.package(other) == m.package(other) by {
        let j = m.index_of(other);
        assert(n.packages[j].id == other);
        assert(n.index_of(other) == j);
    }
}

/// Two models with the same package records agree on every lookup.
pub proof fn lemma_same_packages(m: EscrowModel, n: EscrowModel)
    requires
        m.wf(),
        n.packages == m.packages,
    ensures
        forall|id: u64| #[trigger] n.has_package(id) == m.has_package(id),
        forall|id: u64| m.has_package(id) ==> #[trigger] n.package(id) == m.package(id),
{
    assert forall|id: u64| #[trigger] n.has_package(id) == m.has_package(id) by {
        if m.has_package(id) {
            let i = m.index_of(id);
            assert(n.packages[i].id == id);
        }
        if n.has_package(id) {
            let i = n.index_of(id);
            assert(m.packages[i].id == id);
        }
    }
    assert forall|id: u64| m.has_package(id) implies #[trigger] n.package(id) == m.package(id) by {
        let i = m.index_of(id);
        assert(n.packages[i].id == id);
        assert(n.has_package(id));
        let j = n.index_of(id);
        assert(m.packages[j].id == id);
    }
}

/// The locked totals that a list of `(asset, total)` entries describes; a later
/// entry for the same asset replaces an earlier one.
pub open spec fn locked_map(s: Seq<(Address, i128)>) -> Map<u64, i128>
    decreases s.len(),
{
    if s.len() == 0 {
        Map::empty()
    } else {
        locked_map(s.drop_last()).insert(s.last().0.id, s.last().1)
    }
}

/// Every asset of a described map comes from one of the entries.
pub proof fn lemma_locked_map_keys(s: Seq<(Address, i128)>)
    ensures
        forall|k: u64| #[trigger] locked_map(s).contains_key(k)
            ==> exists|j: int| 0 <= j < s.len() && #[trigger] s[j].0.id == k,
    decreases s.len(),
{
    if s.len() > 0 {
        lemma_locked_map_keys(s.drop_last());
        assert forall|k: u64| #[trigger] locked_map(s).contains_key(k)
            implies exists|j: int| 0 <= j < s.len() && #[trigger] s[j].0.id == k by {
            if k != s.last().0.id {
                assert(locked_map(s.drop_last()).contains_key(k));
                let j = choose|j: int| 0 <= j < s.drop_last().len() && #[trigger] s.drop_last()[j].0.id == k;
                assert(s[j].0.id == k);
            } else {
                assert(s[s.len() - 1].0.id == k);
            }
        }
    }
}

/// The committed total of a prefix grows by the contribution of the next package.
pub proof fn lemma_committed_prefix(s: Seq<Package>, i: int, asset: Address)
    requires
        0 <= i < s.len(),
    ensures
        committed(s.subrange(0, i + 1), asset) == committed(s.subrange(0, i), asset) + contribution(s[i], asset),
{
    assert(s.subrange(0, i + 1).drop_last() =~= s.subrange(0, i));
}

/// With positive amounts, no prefix commits more than the whole sequence.
pub proof fn lemma_committed_prefix_le(s: Seq<Package>, i: int, asset: Address)
    requires
        0 <= i <= s.len(),
        forall|j: int| 0 <= j < s.len() ==> #[trigger] s[j].amount > 0,
    ensures
        committed(s.subrange(0, i), asset) <= committed(s, asset),
    decreases s.len(),
{
    if i == s.len() {
        assert(s.subrange(0, i) =~= s);
    } else {
        lemma_committed_prefix_le(s.drop_last(), i, asset);
        assert(s.drop_last().subrange(0, i) =~= s.subrange(0, i));
    }
}

/// An asset that no package holds is not committed at all.
pub proof fn lemma_committed_absent(s: Seq<Package>, asset: Address)
    requires
        forall|j: int| 0 <= j < s.len() ==> #[trigger] s[j].token != asset,
    ensures
        committed(s, asset) == 0,
    decreases s.len(),
{
    if s.len() > 0 {
        lemma_committed_absent(s.drop_last(), asset);
    }
}

/// The asset of every entry is a key of the described map.
pub proof fn lemma_locked_map_has(s: Seq<(Address, i128)>, j: int)
    requires
        0 <= j < s.len(),
    ensures
        locked_map(s).contains_key(s[j].0.id),
    decreases s.len(),
{
    if j < s.len() - 1 {
        lemma_locked_map_has(s.drop_last(), j);
    }
}

} // verus!
