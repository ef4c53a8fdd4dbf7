use vstd::prelude::*;

use crate::currency::UCurrency;

verus! {

/// One account-affecting record of the input stream: a tagged union of the
/// five transaction kinds, each carrying its transaction id and client id,
/// and an amount for deposits and withdrawals.
#[derive(Debug, Clone, PartialEq, Eq, Structural)]
pub enum Transaction {
    Deposit(Deposit),
    Dispute(Dispute),
    ChargeBack(ChargeBack),
    Resolve(Resolve),
    Withdrawal(Withdrawal),
}

#[derive(Debug, Clone, Copy, PartialEq, Eq, Structural)]
pub struct Deposit {
    pub tx: u32,
    pub client: u16,
    pub amount: UCurrency,
}

#[derive(Debug, Clone, Copy, PartialEq, Eq, Structural)]
pub struct Withdrawal {
    pub tx: u32,
    pub client: u16,
    pub amount: UCurrency,
}

#[derive(Debug, Clone, Copy, PartialEq, Eq, Structural)]
pub struct ChargeBack {
    pub tx: u32,
    pub client: u16,
}

#[derive(Debug, Clone, Copy, PartialEq, Eq, Structural)]
pub struct Resolve {
    pub tx: u32,
    pub client: u16,
}

#[derive(Debug, Clone, Copy, PartialEq, Eq, Structural)]
pub struct Dispute {
    pub tx: u32,
    pub client: u16,
}

/// Something that consumes itself to apply one transaction of a given kind,
/// yielding the updated value or an error. Meant for users of the library
/// that replay transactions into their own state.
pub trait TransactionExecutor<TransactionType> where Self: Sized {
    type TransactionError;

    fn execute(self, transaction: TransactionType) -> Result<Self, Self::TransactionError>;
}

impl Transaction {
    pub fn new_deposit(tx: u32, client: u16, amount: UCurrency) -> (r: Self)
        ensures
            r == Transaction::Deposit(Deposit { tx, client, amount }),
    {
        Self::Deposit(Deposit { tx, client, amount })
    }

    pub fn new_dispute(tx: u32, client: u16) -> (r: Self)
        ensures
            r == Transaction::Dispute(Dispute { tx, client }),
    {
        Self::Dispute(Dispute { tx, client })
    }

    pub fn new_charge_back(tx: u32, client: u16) -> (r: Self)
        ensures
            r == Transaction::ChargeBack(ChargeBack { tx, client }),
    {
        Self::ChargeBack(ChargeBack { tx, client })
    }

    pub fn new_resolve(tx: u32, client: u16) -> (r: Self)
        ensures
            r == Transaction::Resolve(Resolve { tx, client }),
    {
        Self::Resolve(Resolve { tx, client })
    }

    pub fn new_withdrawal(tx: u32, client: u16, amount: UCurrency) -> (r: Self)
        ensures
            r == Transaction::Withdrawal(Withdrawal { tx, client, amount }),
    {
        Self::Withdrawal(Withdrawal { tx, client, amount })
    }

    /// The transaction id this record carries or references.
    pub open spec fn spec_tx(&self) -> u32 {
        match self {
            Transaction::Deposit(d) => d.tx,
            Transaction::Dispute(d) => d.tx,
            Transaction::ChargeBack(d) => d.tx,
            Transaction::Resolve(d) => d.tx,
            Transaction::Withdrawal(d) => d.tx,
        }
    }

    pub fn get_tx(&self) -> (r: u32)
        ensures
            r == self.spec_tx(),
    {
        match self {
            Transaction::Deposit(d) => d.tx,
            Transaction::Dispute(d) => d.tx,
            Transaction::ChargeBack(d) => d.tx,
            Transaction::Resolve(d) => d.tx,
            Transaction::Withdrawal(d) => d.tx,
        }
    }

    /// The id of the client account this record belongs to.
    pub open spec fn spec_client_id(&self) -> u16 {
        match self {
            Transaction::Deposit(d) => d.client,
            Transaction::Dispute(d) => d.client,
            Transaction::ChargeBack(d) => d.client,
            Transaction::Resolve(d) => d.client,
            Transaction::Withdrawal(d) => d.client,
        }
    }

    pub fn get_client_id(&self) -> (r: u16)
        ensures
            r == self.spec_client_id(),
    {
        match self {
            Transaction::Deposit(d) => d.client,
            Transaction::Dispute(d) => d.client,
            Transaction::ChargeBack(d) => d.client,
            Transaction::Resolve(d) => d.client,
            Transaction::Withdrawal(d) => d.client,
        }
    }

    /// Dispatch on the transaction kind, handing the payload to the matching
    /// `TransactionExecutor` implementation of the executor.
    pub fn execute<EXE, ERR>(self, executor: EXE) -> Result<EXE, ERR> where
        EXE: TransactionExecutor<Deposit, TransactionError = ERR>
            + TransactionExecutor<Withdrawal, TransactionError = ERR>
            + TransactionExecutor<Dispute, TransactionError = ERR>
            + TransactionExecutor<Resolve, TransactionError = ERR>
            + TransactionExecutor<ChargeBack, TransactionError = ERR>,
    {
        match self {
            Transaction::Deposit(d) => executor.execute(d),
            Transaction::Dispute(d) => executor.execute(d),
            Transaction::ChargeBack(d) => executor.execute(d),
            Transaction::Resolve(d) => executor.execute(d),
            Transaction::Withdrawal(d) => executor.execute(d),
        }
    }

    pub fn as_deposit(&self) -> (r: Option<&Deposit>)
        ensures
            r == if self is Deposit {
                Some(&self->Deposit_0)
            } else {
                None::<&Deposit>
            },
    {
        if let Self::Deposit(v) = self {
            Some(v)
        } else {
            None
        }
    }

    pub fn as_deposit_mut(&mut self) -> (r: Option<&mut Deposit>)
        ensures
            match r {
                Some(d) => (*old(self)) is Deposit && *d == (*old(self))->Deposit_0 && *final(self)
                    == Transaction::Deposit(*final(d)),
                None => !((*old(self)) is Deposit) && *final(self) == *old(self),
            },
    {
        if let Self::Deposit(v) = self {
            Some(v)
        } else {
            None
        }
    }

    pub fn as_dispute(&self) -> (r: Option<&Dispute>)
        ensures
            r == if self is Dispute {
                Some(&self->Dispute_0)
            } else {
                None::<&Dispute>
            },
    {
        if let Self::Dispute(v) = self {
            Some(v)
        } else {
            None
        }
    }

    pub fn as_charge_back(&self) -> (r: Option<&ChargeBack>)
        ensures
            r == if self is ChargeBack {
                Some(&self->ChargeBack_0)
            } else {
                None::<&ChargeBack>
            },
    {
        if let Self::ChargeBack(v) = self {
            Some(v)
        } else {
            None
        }
    }

    pub fn as_resolve(&self) -> (r: Option<&Resolve>)
        ensures
            r == if self is Resolve {
                Some(&self->Resolve_0)
            } else {
                None::<&Resolve>
            },
    {
        if let Self::Resolve(v) = self {
            Some(v)
        } else {
            None
        }
    }

    pub fn as_withdrawal(&self) -> (r: Option<&Withdrawal>)
        ensures
            r == if self is Withdrawal {
                Some(&self->Withdrawal_0)
            } else {
                None::<&Withdrawal>
            },
    {
        if let Self::Withdrawal(v) = self {
            Some(v)
        } else {
            None
        }
    }
}

} // verus!
