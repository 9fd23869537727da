//! The asset ledger: balances of every asset for every account.
use crate::store::Store;
use crate::types::{AccountId, AssetBalance, AssetId, Error};
use vstd::prelude::*;

verus! {

pub type Balances = Map<(AssetId, AccountId), AssetBalance>;

/// The balance of `who` in `asset`: zero where nothing was recorded.
pub open spec fn balance_in(m: Balances, asset: AssetId, who: AccountId) -> nat {
    if m.contains_key((asset, who)) {
        m[(asset, who)] as nat
    } else {
        0
    }
}

/// One movement of value on the ledger.
#[derive(Clone, Copy, Debug, PartialEq, Eq)]
pub enum LedgerOp {
    /// Moves `amount` of `asset` from `from` to `to`.
    Transfer { asset: AssetId, from: AccountId, to: AccountId, amount: AssetBalance },
    /// Mints `amount` of `asset` to `to`.
    Deposit { asset: AssetId, to: AccountId, amount: AssetBalance },
    /// Burns `amount` of `asset` held by `from`.
    Withdraw { asset: AssetId, from: AccountId, amount: AssetBalance },
}

/// The balances after `op`, or why it fails; a failing operation changes nothing.
pub open spec fn apply_op(m: Balances, op: LedgerOp) -> Result<Balances, Error> {
    match op {
        LedgerOp::Transfer { asset, from, to, amount } => {
            if balance_in(m, asset, from) < amount {
                Err(Error::InsufficientAssetBalance)
            } else if from == to {
                Ok(m)
            } else if balance_in(m, asset, to) + amount > u128::MAX {
                Err(Error::Overflow)
            } else {
                Ok(
                    m.insert((asset, from), (balance_in(m, asset, from) - amount) as u128).insert(
                        (asset, to),
                        (balance_in(m, asset, to) + amount) as u128,
                    ),
                )
            }
        },
        LedgerOp::Deposit { asset, to, amount } => {
            if balance_in(m, asset, to) + amount > u128::MAX {
                Err(Error::Overflow)
            } else {
                Ok(m.insert((asset, to), (balance_in(m, asset, to) + amount) as u128))
            }
        },
        LedgerOp::Withdraw { asset, from, amount } => {
            if balance_in(m, asset, from) < amount {
                Err(Error::InsufficientAssetBalance)
            } else {
                Ok(m.insert((asset, from), (balance_in(m, asset, from) - amount) as u128))
            }
        },
    }
}

/// The balances after all of `ops` in order, or the first failure.
pub open spec fn apply_ops(m: Balances, ops: Seq<LedgerOp>) -> Result<Balances, Error>
    decreases ops.len(),
{
    if ops.len() == 0 {
        Ok(m)
    } else {
        match apply_ops(m, ops.drop_last()) {
            Ok(m1) => apply_op(m1, ops.last()),
            Err(e) => Err(e),
        }
    }
}

pub struct Ledger {
    balances: Store<(AssetId, AccountId), AssetBalance>,
}

impl View for Ledger {
    type V = Balances;

    closed spec fn view(&self) -> Balances {
        self.balances@
    }
}

impl Ledger {
    pub fn new() -> (r: Self)
        ensures
            r@ == Map::<(AssetId, AccountId), AssetBalance>::empty(),
    {
        Ledger { balances: Store::new() }
    }

    pub fn balance_of(&self, asset: AssetId, who: AccountId) -> (r: AssetBalance)
        ensures
            r == balance_in(self@, asset, who),
    {
        match self.balances.get(&(asset, who)) {
            Some(b) => *b,
            None => 0,
        }
    }

    /// A copy of the ledger.
    pub fn duplicate(&self) -> (r: Self)
        ensures
            r@ == self@,
    {
        Ledger { balances: self.balances.duplicate() }
    }

    /// Performs `op`; on failure nothing changes.
    pub fn apply(&mut self, op: LedgerOp) -> (r: Result<(), Error>)
        ensures
            match apply_op(old(self)@, op) {
                Ok(m) => r is Ok && final(self)@ == m,
                Err(e) => r == Err::<(), Error>(e) && final(self)@ == old(self)@,
            },
    {
        match op {
            LedgerOp::Transfer { asset, from, to, amount } => {
                let b_from = self.balance_of(asset, from);
                if b_from < amount {
                    return Err(Error::InsufficientAssetBalance);
                }
                if from == to {
                    return Ok(());
                }
                let b_to = self.balance_of(asset, to);
                if b_to > u128::MAX - amount {
                    return Err(Error::Overflow);
                }
                self.balances.set((asset, from), b_from - amount);
                self.balances.set((asset, to), b_to + amount);
                Ok(())
            },
            LedgerOp::Deposit { asset, to, amount } => {
                let b_to = self.balance_of(asset, to);
                if b_to > u128::MAX - amount {
                    return Err(Error::Overflow);
                }
                self.balances.set((asset, to), b_to + amount);
                Ok(())
            },
            LedgerOp::Withdraw { asset, from, amount } => {
                let b_from = self.balance_of(asset, from);
                if b_from < amount {
                    return Err(Error::InsufficientAssetBalance);
                }
                self.balances.set((asset, from), b_from - amount);
                Ok(())
            },
        }
    }

    /// Performs all of `ops` in order, or none of them.
    pub fn apply_all(&mut self, ops: &Vec<LedgerOp>) -> (r: Result<(), Error>)
        ensures
            match apply_ops(old(self)@, ops@) {
                Ok(m) => r is Ok && final(self)@ == m,
                Err(e) => r == Err::<(), Error>(e) && final(self)@ == old(self)@,
            },
    {
        let mut staged = Ledger { balances: self.balances.duplicate() };
        let mut i: usize = 0;
        while i < ops.len()
            invariant
                i <= ops@.len(),
                apply_ops(self@, ops@.subrange(0, i as int)) == Ok::<Balances, Error>(staged@),
            decreases ops@.len() - i,
        {
            let ghost before = staged@;
            let res = staged.apply(ops[i]);
            assert(ops@.subrange(0, i + 1).drop_last() =~= ops@.subrange(0, i as int));
            match res {
                Ok(()) => {},
                Err(e) => {
                    proof {
                        lemma_apply_ops_fails_on(self@, ops@, (i + 1) as nat);
                    }
                    return Err(e);
                },
            }
            i = i + 1;
        }
        assert(ops@.subrange(0, i as int) =~= ops@);
        *self = staged;
        Ok(())
    }
}

/// A failure within the first `n` operations is the failure of the whole sequence.
pub proof fn lemma_apply_ops_fails_on(m: Balances, ops: Seq<LedgerOp>, n: nat)
    requires
        n <= ops.len(),
        apply_ops(m, ops.subrange(0, n as int)) is Err,
    ensures
        apply_ops(m, ops) == apply_ops(m, ops.subrange(0, n as int)),
    decreases ops.len() - n,
{
    if n < ops.len() {
        assert(ops.subrange(0, (n + 1) as int).drop_last() =~= ops.subrange(0, n as int));
        lemma_apply_ops_fails_on(m, ops, n + 1);
    } else {
        assert(ops.subrange(0, n as int) =~= ops);
    }
}

} // verus!
