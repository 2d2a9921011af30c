use vstd::prelude::*;
use crate::types::{Address, PackageStatus, Error, Transfer, Call};
use crate::model::{
    EscrowModel, step, pool_delta, lemma_create_wf, lemma_same_packages, lemma_set_status_wf, lemma_release_wf,
};

verus! {

/// What a call's outcome moves into (positive) or out of (negative) the pool
/// of `asset`: nothing unless it succeeded with a transfer.
pub open spec fn outcome_flow(r: Result<Option<Transfer>, Error>, asset: Address) -> int {
    match r {
        Ok(Some(t)) => pool_delta(t, asset),
        _ => 0,
    }
}

/// The package that a call acts on, for the calls that act on one stored package.
pub open spec fn target(call: Call) -> Option<u64> {
    match call {
        Call::Claim { id } => Some(id),
        Call::Disburse { id } => Some(id),
        Call::Revoke { id } => Some(id),
        Call::Refund { id } => Some(id),
        Call::GetPackage { id } => Some(id),
        _ => None,
    }
}

/// Whether `call` pays out a package whose locked amount was no longer counted
/// (a refund of an expired or cancelled package).
pub open spec fn refunds_released(m: EscrowModel, call: Call) -> bool {
    match call {
        Call::Refund { id } => m.has_package(id) && (m.package(id).status == PackageStatus::Expired
            || m.package(id).status == PackageStatus::Cancelled),
        _ => false,
    }
}

/// Whether a refund of an expired or cancelled package, if `call` is one, still
/// leaves the pool of `asset` able to cover its locked total once the package's
/// amount is paid out.
pub open spec fn refund_covered(m: EscrowModel, call: Call, asset: Address, balance: int) -> bool {
    match call {
        Call::Refund { id } => refunds_released(m, call) && m.package(id).token == asset
            ==> m.locked_of(asset) + m.package(id).amount <= balance,
        _ => true,
    }
}

/// Whether the pool balance that a creation was given is `balance` for `asset`.
pub open spec fn reads_balance(call: Call, asset: Address, balance: int) -> bool {
    match call {
        Call::CreatePackage { asset: a, pool_balance, .. } => a == asset ==> pool_balance == balance,
        _ => true,
    }
}

/// Every asset's locked total in `n` is that of `m`, less `amount` for `asset`.
pub open spec fn unlocked_exactly(m: EscrowModel, n: EscrowModel, asset: Address, amount: int) -> bool {
    forall|a: Address| #[trigger] n.locked_of(a) == m.locked_of(a) - (if a == asset { amount } else { 0 })
}

/// Solvency: from a well-formed state whose locked total of `asset` is covered
/// by the pool's balance, any call (a creation being told that balance) leads to
/// a well-formed state whose locked total is still covered by the balance after
/// the call's own transfer. Creation is the only call that raises a locked
/// total, and it is refused exactly where the total would exceed the balance.
/// A refund of a package that is already expired or cancelled must find the
/// pool covering its amount on top of the locked total: that amount may have
/// been committed again since it was released, and paying it out can then leave
/// the pool short of its locked total.
pub proof fn lemma_solvency(m: EscrowModel, call: Call, caller: Address, now: u64, asset: Address, balance: int)
    requires
        m.wf(),
        m.locked_of(asset) <= balance,
        reads_balance(call, asset, balance),
        refund_covered(m, call, asset, balance),
    ensures
        step(m, call, caller, now).0.wf(),
        step(m, call, caller, now).0.locked_of(asset) <= balance + outcome_flow(step(m, call, caller, now).1, asset),
{
    match call {
        Call::Init { .. } => {
            let n = step(m, call, caller, now).0;
            assert forall|a: Address| #[trigger] crate::model::committed(n.packages, a) <= n.locked_of(a) by {
                assert(crate::model::committed(m.packages, a) <= m.locked_of(a));
            }
        },
        Call::Fund { .. } => {},
        Call::CreatePackage { id, recipient, amount, asset: a, expires_at, pool_balance } => {
            if m.create_next(id, recipient, amount, a, expires_at, caller, now, pool_balance).1 is Ok {
                lemma_create_wf(m, id, recipient, amount, a, expires_at, caller, now, pool_balance);
            }
        },
        Call::Claim { id } => {
            if m.has_package(id) && m.package(id).status == PackageStatus::Created {
                if crate::model::is_expired(m.package(id), now) {
                    lemma_set_status_wf(m, id, PackageStatus::Expired);
                } else {
                    lemma_release_wf(m, m.set_status(id, PackageStatus::Claimed), id, PackageStatus::Claimed);
                }
            }
        },
        Call::Disburse { id } => {
            if m.has_package(id) && m.package(id).status == PackageStatus::Created {
                lemma_release_wf(m, m.set_status(id, PackageStatus::Claimed), id, PackageStatus::Claimed);
            }
        },
        Call::Revoke { id } => {
            if m.has_package(id) && m.package(id).status == PackageStatus::Created {
                lemma_release_wf(m, m.set_status(id, PackageStatus::Cancelled), id, PackageStatus::Cancelled);
            }
        },
        Call::Refund { id } => {
            if m.has_package(id) && m.package(id).status == PackageStatus::Created {
                lemma_release_wf(m, m.set_status(id, PackageStatus::Refunded), id, PackageStatus::Refunded);
            } else if m.has_package(id) {
                lemma_set_status_wf(m, id, PackageStatus::Refunded);
            }
        },
        Call::GetPackage { .. } => {},
    }
}

/// Unlock on terminal: a call that moves an open package out of `Created`
/// lowers the locked total of its asset by exactly its amount and leaves every
/// other asset alone, with one exception: a claim that finds the package past
/// its expiry marks it expired and releases nothing. A call on a package that
/// has already left `Created` never releases its amount again.
pub proof fn lemma_unlock_on_terminal(m: EscrowModel, call: Call, caller: Address, now: u64, id: u64)
    requires
        m.wf(),
        m.has_package(id),
        target(call) == Some(id),
    ensures
        ({
            let p = m.package(id);
            let (n, r) = step(m, call, caller, now);
            &&& n.has_package(id)
            &&& (p.status == PackageStatus::Created && n.package(id).status != PackageStatus::Created
                && r != Err::<Option<Transfer>, Error>(Error::PackageExpired)
                ==> unlocked_exactly(m, n, p.token, p.amount as int))
            &&& (p.status == PackageStatus::Created && r == Err::<Option<Transfer>, Error>(Error::PackageExpired)
                ==> n.package(id).status == PackageStatus::Expired && n.locked == m.locked)
            &&& (p.status == PackageStatus::Created && n.package(id).status == PackageStatus::Created
                ==> n.locked == m.locked)
            &&& (p.status != PackageStatus::Created ==> n.locked == m.locked)
        }),
{
    let p = m.package(id);
    let st = match call {
        Call::Claim { .. } => if crate::model::is_expired(p, now) {
            PackageStatus::Expired
        } else {
            PackageStatus::Claimed
        },
        Call::Disburse { .. } => PackageStatus::Claimed,
        Call::Revoke { .. } => PackageStatus::Cancelled,
        _ => PackageStatus::Refunded,
    };
    lemma_set_status_wf(m, id, st);
    if p.status == PackageStatus::Created {
        lemma_release_wf(m, m.set_status(id, st), id, st);
    }
}

/// At most one settlement: once a claim or a disbursement of package `id` has
/// succeeded, the package is settled for good (no call moves it out of
/// `Claimed`), a further claim fails with `PackageNotActive`, and so does a
/// further disbursement by the administrator.
pub proof fn lemma_settlement_is_final(
    m: EscrowModel,
    settle: Call,
    c1: Address,
    t1: u64,
    id: u64,
    next: Call,
    c2: Address,
    t2: u64,
)
    requires
        m.wf(),
        settle == (Call::Claim { id }) || settle == (Call::Disburse { id }),
        step(m, settle, c1, t1).1 is Ok,
    ensures
        ({
            let n = step(m, settle, c1, t1).0;
            &&& n.wf()
            &&& n.has_package(id)
            &&& n.package(id).status == PackageStatus::Claimed
            &&& step(n, Call::Claim { id }, c2, t2).1 == Err::<Option<Transfer>, Error>(Error::PackageNotActive)
            &&& (n.admin == Some(c2) ==> step(n, Call::Disburse { id }, c2, t2).1
                == Err::<Option<Transfer>, Error>(Error::PackageNotActive))
            &&& step(n, next, c2, t2).0.has_package(id)
            &&& step(n, next, c2, t2).0.package(id).status == PackageStatus::Claimed
        }),
{
    lemma_set_status_wf(m, id, PackageStatus::Claimed);
    let n = step(m, settle, c1, t1).0;
    lemma_release_wf(m, m.set_status(id, PackageStatus::Claimed), id, PackageStatus::Claimed);
    lemma_claimed_stays_claimed(n, next, c2, t2, id);
}

/// No call moves a settled package out of `Claimed`, nor removes it.
pub proof fn lemma_claimed_stays_claimed(m: EscrowModel, call: Call, caller: Address, now: u64, id: u64)
    requires
        m.wf(),
        m.has_package(id),
        m.package(id).status == PackageStatus::Claimed,
    ensures
        step(m, call, caller, now).0.has_package(id),
        step(m, call, caller, now).0.package(id).status == PackageStatus::Claimed,
{
    match call {
        Call::CreatePackage { id: k, recipient, amount, asset, expires_at, pool_balance } => {
            if m.create_next(k, recipient, amount, asset, expires_at, caller, now, pool_balance).1 is Ok {
                lemma_create_wf(m, k, recipient, amount, asset, expires_at, caller, now, pool_balance);
            }
        },
        Call::Claim { id: k } | Call::Disburse { id: k } | Call::Revoke { id: k } | Call::Refund { id: k } => {
            if m.has_package(k) && k != id {
                let p = m.package(k);
                let st = match call {
                    Call::Claim { .. } => if crate::model::is_expired(p, now) {
                        PackageStatus::Expired
                    } else {
                        PackageStatus::Claimed
                    },
                    Call::Disburse { .. } => PackageStatus::Claimed,
                    Call::Revoke { .. } => PackageStatus::Cancelled,
                    _ => PackageStatus::Refunded,
                };
                lemma_set_status_wf(m, k, st);
                let n = m.set_status(k, st);
                lemma_same_packages(n, n.release(p.token, p.amount));
            }
        },
        Call::Init { .. } => {
            lemma_same_packages(m, step(m, call, caller, now).0);
        },
        _ => {},
    }
}

/// Reading a package leaves the escrow as it was, however often it is done,
/// and reports the stored record as it is, even past its expiry.
pub proof fn lemma_query_is_pure(m: EscrowModel, id: u64, caller: Address, now: u64)
    ensures
        step(m, Call::GetPackage { id }, caller, now).0 == m,
        step(step(m, Call::GetPackage { id }, caller, now).0, Call::GetPackage { id }, caller, now)
            == step(m, Call::GetPackage { id }, caller, now),
        m.has_package(id) ==> m.lookup(id) == Ok::<crate::types::Package, Error>(m.package(id)),
{
}

} // verus!
