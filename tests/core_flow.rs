use aid_escrow::{Address, AidEscrow, Error, Package, PackageStatus, Transfer};
use std::collections::HashMap;

const CUSTODY: Address = Address { id: 9_000 };

/// The escrow together with a token ledger and a clock, standing in for the host.
struct World {
    escrow: AidEscrow,
    balances: HashMap<(u64, u64), i128>,
    now: u64,
}

impl World {
    fn new() -> World {
        World { escrow: AidEscrow::new(), balances: HashMap::new(), now: 0 }
    }

    fn balance(&self, asset: Address, holder: Address) -> i128 {
        *self.balances.get(&(asset.id, holder.id)).unwrap_or(&0)
    }

    fn add(&mut self, asset: Address, holder: Address, delta: i128) {
        let b = self.balance(asset, holder) + delta;
        assert!(b >= 0, "balance would go negative");
        self.balances.insert((asset.id, holder.id), b);
    }

    fn mint(&mut self, asset: Address, to: Address, amount: i128) {
        self.add(asset, to, amount);
    }

    fn apply(&mut self, t: Transfer) {
        match t {
            Transfer::Deposit { asset, from, amount } => {
                self.add(asset, from, -amount);
                self.add(asset, CUSTODY, amount);
            }
            Transfer::Payout { asset, to, amount } => {
                self.add(asset, CUSTODY, -amount);
                self.add(asset, to, amount);
            }
        }
    }

    fn init(&mut self, admin: Address) -> Result<(), Error> {
        self.escrow.init(admin)
    }

    fn admin(&self) -> Address {
        self.escrow.get_admin().unwrap()
    }

    fn fund(&mut self, asset: Address, from: Address, amount: i128) -> Result<(), Error> {
        let t = self.escrow.fund(asset, from, amount, from)?;
        self.apply(t);
        Ok(())
    }

    fn create_package(&mut self, id: u64, recipient: Address, amount: i128, asset: Address, expires_at: u64) -> Result<u64, Error> {
        let pool = self.balance(asset, CUSTODY);
        let admin = self.escrow.get_admin()?;
        self.escrow.create_package(id, recipient, amount, asset, expires_at, admin, self.now, pool)
    }

    fn claim(&mut self, id: u64) -> Result<(), Error> {
        let caller = match self.escrow.get_package(id) {
            Ok(p) => p.recipient,
            Err(_) => CUSTODY,
        };
        let t = self.escrow.claim(id, caller, self.now)?;
        self.apply(t);
        Ok(())
    }

    fn disburse(&mut self, id: u64) -> Result<(), Error> {
        let t = self.escrow.disburse(id, self.admin())?;
        self.apply(t);
        Ok(())
    }

    fn revoke(&mut self, id: u64) -> Result<(), Error> {
        self.escrow.revoke(id, self.admin())
    }

    fn refund(&mut self, id: u64) -> Result<(), Error> {
        let t = self.escrow.refund(id, self.admin(), self.now)?;
        self.apply(t);
        Ok(())
    }

    fn get_package(&self, id: u64) -> Result<Package, Error> {
        self.escrow.get_package(id)
    }
}

fn addr(id: u64) -> Address {
    Address::new(id)
}


#[test]
fn test_core_flow_fund_create_claim() {
    let mut w = World::new();
    let admin = addr(1);
    let recipient = addr(2);
    let token = addr(3);
    w.init(admin).unwrap();
    w.mint(token, admin, 10_000);

    w.fund(token, admin, 5000).unwrap();
    assert_eq!(w.balance(token, CUSTODY), 5000);

    let pkg_id = 101;
    let expiry = w.now + 86400;
    w.create_package(pkg_id, recipient, 1000, token, expiry).unwrap();

    let pkg = w.get_package(pkg_id).unwrap();
    assert_eq!(pkg.status, PackageStatus::Created);
    assert_eq!(pkg.amount, 1000);

    w.claim(pkg_id).unwrap();

    let pkg_claimed = w.get_package(pkg_id).unwrap();
    assert_eq!(pkg_claimed.status, PackageStatus::Claimed);
    assert_eq!(w.balance(token, recipient), 1000);
    assert_eq!(w.balance(token, CUSTODY), 4000);
    assert_eq!(w.escrow.locked(token), 0);
}

#[test]
fn test_solvency_check() {
    let mut w = World::new();
    let admin = addr(1);
    let recipient = addr(2);
    let token = addr(3);
    w.init(admin).unwrap();
    w.mint(token, admin, 1000);
    w.fund(token, admin, 1000).unwrap();

    let res = w.create_package(1, recipient, 2000, token, 0);
    assert_eq!(res, Err(Error::InsufficientFunds));

    w.create_package(2, recipient, 1000, token, 0).unwrap();

    let res2 = w.create_package(3, recipient, 1, token, 0);
    assert_eq!(res2, Err(Error::InsufficientFunds));
}

#[test]
fn test_expiry_and_refund() {
    let mut w = World::new();
    let admin = addr(1);
    let recipient = addr(2);
    let token = addr(3);
    w.init(admin).unwrap();
    w.mint(token, admin, 1000);
    w.fund(token, admin, 1000).unwrap();

    let start_time = 1000;
    w.now = start_time;
    let pkg_id = 1;
    let expiry = start_time + 100;
    w.create_package(pkg_id, recipient, 500, token, expiry).unwrap();

    w.now = expiry + 1;

    let claim_res = w.claim(pkg_id);
    assert_eq!(claim_res, Err(Error::PackageExpired));

    assert_eq!(w.balance(token, admin), 0);

    w.refund(pkg_id).unwrap();

    assert_eq!(w.balance(token, admin), 500);

    let pkg = w.get_package(pkg_id).unwrap();
    assert_eq!(pkg.status, PackageStatus::Refunded);
}

#[test]
fn test_revoke_flow() {
    let mut w = World::new();
    let admin = addr(1);
    let recipient = addr(2);
    let token = addr(3);
    w.init(admin).unwrap();
    w.mint(token, admin, 1000);
    w.fund(token, admin, 1000).unwrap();

    let pkg_id = 1;
    w.create_package(pkg_id, recipient, 500, token, 0).unwrap();

    w.revoke(pkg_id).unwrap();

    let pkg = w.get_package(pkg_id).unwrap();
    assert_eq!(pkg.status, PackageStatus::Cancelled);

    let pkg_id_2 = 2;
    w.create_package(pkg_id_2, recipient, 1000, token, 0).unwrap();
}
