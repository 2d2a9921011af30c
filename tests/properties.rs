use aid_escrow::{Address, AidEscrow, Error, Package, PackageStatus, Transfer};
use std::collections::HashMap;

const CUSTODY: Address = Address { id: 9_000 };

/// The escrow together with a token ledger and a clock, standing in for the host.
struct World {
    escrow: AidEscrow,
    balances: HashMap<(u64, u64), i128>,
    now: u64,
}

impl World {
    fn new() -> World {
        World { escrow: AidEscrow::new(), balances: HashMap::new(), now: 0 }
    }

    fn balance(&self, asset: Address, holder: Address) -> i128 {
        *self.balances.get(&(asset.id, holder.id)).unwrap_or(&0)
    }

    fn add(&mut self, asset: Address, holder: Address, delta: i128) {
        let b = self.balance(asset, holder) + delta;
        assert!(b >= 0, "balance would go negative");
        self.balances.insert((asset.id, holder.id), b);
    }

    fn mint(&mut self, asset: Address, to: Address, amount: i128) {
        self.add(asset, to, amount);
    }

    fn apply(&mut self, t: Transfer) {
        match t {
            Transfer::Deposit { asset, from, amount } => {
                self.add(asset, from, -amount);
                self.add(asset, CUSTODY, amount);
            }
            Transfer::Payout { asset, to, amount } => {
                self.add(asset, CUSTODY, -amount);
                self.add(asset, to, amount);
            }
        }
    }

    fn init(&mut self, admin: Address) -> Result<(), Error> {
        self.escrow.init(admin)
    }

    fn admin(&self) -> Address {
        self.escrow.get_admin().unwrap()
    }

    fn fund(&mut self, asset: Address, from: Address, amount: i128) -> Result<(), Error> {
        let t = self.escrow.fund(asset, from, amount, from)?;
        self.apply(t);
        Ok(())
    }

    fn create_package(&mut self, id: u64, recipient: Address, amount: i128, asset: Address, expires_at: u64) -> Result<u64, Error> {
        let pool = self.balance(asset, CUSTODY);
        let admin = self.escrow.get_admin()?;
        self.escrow.create_package(id, recipient, amount, asset, expires_at, admin, self.now, pool)
    }

    fn claim(&mut self, id: u64) -> Result<(), Error> {
        let caller = match self.escrow.get_package(id) {
            Ok(p) => p.recipient,
            Err(_) => CUSTODY,
        };
        let t = self.escrow.claim(id, caller, self.now)?;
        self.apply(t);
        Ok(())
    }

    fn disburse(&mut self, id: u64) -> Result<(), Error> {
        let t = self.escrow.disburse(id, self.admin())?;
        self.apply(t);
        Ok(())
    }

    fn revoke(&mut self, id: u64) -> Result<(), Error> {
        self.escrow.revoke(id, self.admin())
    }

    fn refund(&mut self, id: u64) -> Result<(), Error> {
        let t = self.escrow.refund(id, self.admin(), self.now)?;
        self.apply(t);
        Ok(())
    }

    fn get_package(&self, id: u64) -> Result<Package, Error> {
        self.escrow.get_package(id)
    }
}

fn addr(id: u64) -> Address {
    Address::new(id)
}


fn funded(pool: i128) -> (World, Address, Address, Address) {
    let mut w = World::new();
    let admin = addr(1);
    let recipient = addr(2);
    let token = addr(3);
    w.init(admin).unwrap();
    w.mint(token, admin, pool);
    w.fund(token, admin, pool).unwrap();
    (w, admin, recipient, token)
}

#[test]
fn claim_after_claim_is_not_active() {
    let (mut w, _, _, token) = funded(1000);
    w.create_package(7, addr(2), 400, token, 0).unwrap();
    w.claim(7).unwrap();
    assert_eq!(w.claim(7), Err(Error::PackageNotActive));
    assert_eq!(w.disburse(7), Err(Error::PackageNotActive));
    assert_eq!(w.balance(token, addr(2)), 400);
}

#[test]
fn disburse_after_disburse_is_not_active() {
    let (mut w, _, recipient, token) = funded(1000);
    w.create_package(7, recipient, 400, token, 0).unwrap();
    w.disburse(7).unwrap();
    assert_eq!(w.disburse(7), Err(Error::PackageNotActive));
    assert_eq!(w.claim(7), Err(Error::PackageNotActive));
    assert_eq!(w.balance(token, recipient), 400);
    assert_eq!(w.balance(token, CUSTODY), 600);
}

#[test]
fn disburse_ignores_expiry() {
    let (mut w, _, recipient, token) = funded(1000);
    w.create_package(7, recipient, 300, token, 50).unwrap();
    w.now = 51;
    w.disburse(7).unwrap();
    assert_eq!(w.get_package(7).unwrap().status, PackageStatus::Claimed);
    assert_eq!(w.escrow.locked(token), 0);
}

#[test]
fn each_release_removes_exactly_the_amount() {
    let (mut w, _, recipient, token) = funded(5000);
    w.create_package(1, recipient, 100, token, 0).unwrap();
    w.create_package(2, recipient, 200, token, 0).unwrap();
    w.create_package(3, recipient, 400, token, 0).unwrap();
    w.create_package(4, recipient, 800, token, 10).unwrap();
    assert_eq!(w.escrow.locked(token), 1500);
    w.claim(1).unwrap();
    assert_eq!(w.escrow.locked(token), 1400);
    w.disburse(2).unwrap();
    assert_eq!(w.escrow.locked(token), 1200);
    w.revoke(3).unwrap();
    assert_eq!(w.escrow.locked(token), 800);
    w.now = 11;
    w.refund(4).unwrap();
    assert_eq!(w.escrow.locked(token), 0);
    assert_eq!(w.get_package(4).unwrap().status, PackageStatus::Refunded);
}

#[test]
fn refund_of_cancelled_does_not_release_twice() {
    let (mut w, admin, recipient, token) = funded(1000);
    w.create_package(1, recipient, 300, token, 0).unwrap();
    w.create_package(2, recipient, 500, token, 0).unwrap();
    w.revoke(1).unwrap();
    assert_eq!(w.escrow.locked(token), 500);
    w.refund(1).unwrap();
    assert_eq!(w.escrow.locked(token), 500);
    assert_eq!(w.balance(token, admin), 300);
    assert_eq!(w.refund(1), Err(Error::InvalidState));
}

#[test]
fn expired_claim_keeps_amount_locked() {
    let (mut w, admin, recipient, token) = funded(1000);
    w.create_package(1, recipient, 600, token, 100).unwrap();
    w.now = 101;
    assert_eq!(w.claim(1), Err(Error::PackageExpired));
    assert_eq!(w.get_package(1).unwrap().status, PackageStatus::Expired);
    assert_eq!(w.escrow.locked(token), 600);
    w.refund(1).unwrap();
    assert_eq!(w.balance(token, admin), 600);
    assert_eq!(w.escrow.locked(token), 600);
}

#[test]
fn query_leaves_state_alone() {
    let (mut w, _, recipient, token) = funded(1000);
    w.create_package(1, recipient, 600, token, 100).unwrap();
    w.now = 500;
    for _ in 0..5 {
        let p = w.get_package(1).unwrap();
        assert_eq!(p.status, PackageStatus::Created);
        assert_eq!(p.amount, 600);
        assert_eq!(p.expires_at, 100);
        assert_eq!(w.escrow.locked(token), 600);
    }
}

#[test]
fn revoke_frees_funds_for_new_package() {
    let (mut w, _, recipient, token) = funded(1000);
    w.create_package(1, recipient, 1000, token, 0).unwrap();
    assert_eq!(w.create_package(2, recipient, 1000, token, 0), Err(Error::InsufficientFunds));
    w.revoke(1).unwrap();
    assert_eq!(w.get_package(1).unwrap().status, PackageStatus::Cancelled);
    assert_eq!(w.escrow.locked(token), 0);
    assert_eq!(w.create_package(2, recipient, 1000, token, 0), Ok(2));
    assert_eq!(w.escrow.locked(token), 1000);
}

#[test]
fn package_records_creation_time() {
    let (mut w, _, recipient, token) = funded(1000);
    w.now = 42;
    w.create_package(5, recipient, 10, token, 0).unwrap();
    let p = w.get_package(5).unwrap();
    assert_eq!(p.id, 5);
    assert_eq!(p.created_at, 42);
    assert_eq!(p.expires_at, 0);
    w.now = u64::MAX;
    w.claim(5).unwrap();
}

#[test]
fn assets_are_locked_separately() {
    let (mut w, admin, recipient, token) = funded(1000);
    let other = addr(30);
    w.mint(other, admin, 50);
    w.fund(other, admin, 50).unwrap();
    w.create_package(1, recipient, 1000, token, 0).unwrap();
    w.create_package(2, recipient, 50, other, 0).unwrap();
    assert_eq!(w.escrow.locked(token), 1000);
    assert_eq!(w.escrow.locked(other), 50);
    w.claim(2).unwrap();
    assert_eq!(w.escrow.locked(token), 1000);
    assert_eq!(w.escrow.locked(other), 0);
    assert_eq!(w.balance(other, recipient), 50);
}

#[test]
fn not_initialized_errors() {
    let mut e = AidEscrow::new();
    assert_eq!(e.get_admin(), Err(Error::NotInitialized));
    assert_eq!(e.create_package(1, addr(2), 10, addr(3), 0, addr(1), 0, 100), Err(Error::NotInitialized));
    assert_eq!(e.disburse(1, addr(1)), Err(Error::NotInitialized));
    assert_eq!(e.revoke(1, addr(1)), Err(Error::NotInitialized));
    assert_eq!(e.refund(1, addr(1), 0), Err(Error::NotInitialized));
}

#[test]
fn init_only_once() {
    let mut e = AidEscrow::new();
    assert_eq!(e.init(addr(1)), Ok(()));
    assert_eq!(e.init(addr(2)), Err(Error::AlreadyInitialized));
    assert_eq!(e.get_admin(), Ok(addr(1)));
}

#[test]
fn unauthorized_callers_are_refused() {
    let (mut w, admin, recipient, token) = funded(1000);
    let stranger = addr(77);
    assert_eq!(w.escrow.fund(token, admin, 10, stranger), Err(Error::NotAuthorized));
    assert_eq!(w.escrow.create_package(1, recipient, 10, token, 0, stranger, 0, 1000), Err(Error::NotAuthorized));
    w.create_package(1, recipient, 10, token, 0).unwrap();
    assert_eq!(w.escrow.claim(1, stranger, 0), Err(Error::NotAuthorized));
    assert_eq!(w.escrow.disburse(1, recipient), Err(Error::NotAuthorized));
    assert_eq!(w.escrow.revoke(1, stranger), Err(Error::NotAuthorized));
    assert_eq!(w.escrow.refund(1, stranger, 0), Err(Error::NotAuthorized));
    assert_eq!(w.get_package(1).unwrap().status, PackageStatus::Created);
}

#[test]
fn fund_checks_amount() {
    let (w, admin, _, token) = funded(1000);
    assert_eq!(w.escrow.fund(token, admin, 0, admin), Err(Error::InvalidAmount));
    assert_eq!(w.escrow.fund(token, admin, -5, admin), Err(Error::InvalidAmount));
    assert_eq!(
        w.escrow.fund(token, admin, 5, admin),
        Ok(Transfer::Deposit { asset: token, from: admin, amount: 5 })
    );
}

#[test]
fn duplicate_id_is_refused() {
    let (mut w, _, recipient, token) = funded(1000);
    w.create_package(1, recipient, 10, token, 0).unwrap();
    assert_eq!(w.create_package(1, recipient, 10, token, 0), Err(Error::PackageIdExists));
    assert_eq!(w.create_package(2, recipient, -1, token, 0), Err(Error::InvalidAmount));
    assert_eq!(w.escrow.locked(token), 10);
}

#[test]
fn state_errors() {
    let (mut w, _, recipient, token) = funded(1000);
    w.create_package(1, recipient, 10, token, 100).unwrap();
    assert_eq!(w.refund(1), Err(Error::InvalidState));
    w.claim(1).unwrap();
    assert_eq!(w.revoke(1), Err(Error::InvalidState));
    assert_eq!(w.refund(1), Err(Error::InvalidState));
    assert_eq!(w.disburse(99), Err(Error::PackageNotFound));
    assert_eq!(w.revoke(99), Err(Error::PackageNotFound));
    assert_eq!(w.refund(99), Err(Error::PackageNotFound));
}

#[test]
fn solvency_holds_at_the_boundary() {
    let (mut w, _, recipient, token) = funded(i128::MAX);
    assert_eq!(w.create_package(1, recipient, i128::MAX, token, 0), Ok(1));
    assert_eq!(w.create_package(2, recipient, i128::MAX, token, 0), Err(Error::InsufficientFunds));
    assert_eq!(w.create_package(3, recipient, 1, token, 0), Err(Error::InsufficientFunds));
    assert_eq!(w.escrow.locked(token), i128::MAX);
}

#[test]
fn create_checks_before_balance() {
    let (w, admin, _, _) = funded(1000);
    assert_eq!(w.escrow.check_create(1, 10, admin), Ok(()));
    assert_eq!(w.escrow.check_create(1, 0, admin), Err(Error::InvalidAmount));
    assert_eq!(w.escrow.check_create(1, 10, addr(77)), Err(Error::NotAuthorized));
    assert_eq!(AidEscrow::new().check_create(1, 10, admin), Err(Error::NotInitialized));
}

#[test]
fn create_checks_id_before_balance() {
    let (mut w, admin, recipient, token) = funded(1000);
    w.create_package(1, recipient, 10, token, 0).unwrap();
    assert_eq!(w.escrow.check_create(1, 10, admin), Err(Error::PackageIdExists));
    assert_eq!(w.escrow.create_package(1, recipient, 10, token, 0, admin, 0, 0), Err(Error::PackageIdExists));
}

#[test]
fn covered_refund_keeps_pool_solvent() {
    let (mut w, _, recipient, token) = funded(1500);
    w.create_package(1, recipient, 500, token, 0).unwrap();
    w.revoke(1).unwrap();
    w.create_package(2, recipient, 1000, token, 0).unwrap();
    w.refund(1).unwrap();
    assert_eq!(w.balance(token, CUSTODY), 1000);
    assert!(w.escrow.locked(token) <= w.balance(token, CUSTODY));
}
