use vstd::prelude::*;

verus! {

/// An identity on the ledger: an account, the escrow's administrator, or an asset.
#[derive(Clone, Copy, PartialEq, Eq, Structural, Debug, Hash)]
pub struct Address {
    pub id: u64,
}

impl Address {
    pub fn new(id: u64) -> (r: Address)
        ensures
            r.id == id,
    {
        Address { id }
    }
}

/// Lifecycle of a package. `Created` is the only state from which funds can be
/// paid to the recipient; nothing ever returns to it.
#[derive(Clone, Copy, PartialEq, Eq, Structural, Debug)]
pub enum PackageStatus {
    Created,
    Claimed,
    Expired,
    Cancelled,
    Refunded,
}

/// One escrowed commitment of `amount` of asset `token` to `recipient`.
/// `expires_at == 0` means that the package never expires.
#[derive(Clone, Copy, PartialEq, Eq, Structural, Debug)]
pub struct Package {
    pub id: u64,
    pub recipient: Address,
    pub amount: i128,
    pub token: Address,
    pub status: PackageStatus,
    pub created_at: u64,
    pub expires_at: u64,
}

/// Every way in which an operation can fail.
#[derive(Clone, Copy, PartialEq, Eq, Structural, Debug)]
pub enum Error {
    NotInitialized,
    AlreadyInitialized,
    NotAuthorized,
    InvalidAmount,
    PackageNotFound,
    PackageNotActive,
    PackageExpired,
    PackageNotExpired,
    InsufficientFunds,
    PackageIdExists,
    InvalidState,
}

/// A movement of funds that the host must carry out after a successful call.
#[derive(Clone, Copy, PartialEq, Eq, Structural, Debug)]
pub enum Transfer {
    /// `amount` of `asset` moves from `from` into the escrow's custody.
    Deposit { asset: Address, from: Address, amount: i128 },
    /// `amount` of `asset` moves out of the escrow's custody to `to`.
    Payout { asset: Address, to: Address, amount: i128 },
}

/// One public operation with its arguments, as the laws of the engine speak of
/// them. `pool_balance` is the custody balance of `asset` that the host reads
/// before a creation.
#[derive(Clone, Copy, PartialEq, Eq, Structural, Debug)]
pub enum Call {
    Init { admin: Address },
    Fund { asset: Address, from: Address, amount: i128 },
    CreatePackage {
        id: u64,
        recipient: Address,
        amount: i128,
        asset: Address,
        expires_at: u64,
        pool_balance: i128,
    },
    Claim { id: u64 },
    Disburse { id: u64 },
    Revoke { id: u64 },
    Refund { id: u64 },
    GetPackage { id: u64 },
}

} // verus!
