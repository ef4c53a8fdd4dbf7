use vstd::prelude::*;

use crate::currency::{ICurrency, UCurrency};
use crate::ledger::DepositState;
use crate::transaction::{ChargeBack, Deposit, Dispute, Resolve, Withdrawal};

verus! {

/// Why a single transaction was rejected. Every error is local to the
/// transaction being applied: the account it targeted is left untouched.
#[derive(Debug, Clone, PartialEq, Eq, Structural)]
pub enum TransactionExecutionError {
    /// A withdrawal would make the available balance negative.
    InsufficientFunds,
    /// A dispute, resolve or chargeback referenced a tx id never seen as a
    /// deposit for that client.
    DepositNotFound(u32),
    /// A withdrawal was attempted against a locked account.
    AccountLocked,
    /// A dispute, resolve or chargeback found the referenced deposit in the
    /// wrong state.
    InvalidDepositState {
        tx: u32,
        expected_state: DepositState,
        actual_state: DepositState,
    },
    /// A deposit reused a tx id already recorded for that client.
    DuplicateDeposit(u32),
    /// A checked addition left the representable currency range.
    Overflow,
    /// A checked subtraction left the representable currency range.
    Underflow,
}

/// One client's balances. `total` is `available + held`, computed, never stored.
#[derive(Debug, Clone, Copy, PartialEq, Eq, Structural)]
pub struct ClientAccount {
    pub id: u16,
    pub locked: bool,
    pub available: ICurrency,
    pub held: UCurrency,
}

impl ClientAccount {
    /// A fresh account: zero balances, unlocked.
    pub open spec fn spec_new(id: u16) -> ClientAccount {
        ClientAccount {
            id,
            locked: false,
            available: ICurrency { bits: 0 },
            held: UCurrency { bits: 0 },
        }
    }

    pub fn new(id: u16) -> (r: Self)
        ensures
            r == ClientAccount::spec_new(id),
    {
        ClientAccount {
            id,
            locked: false,
            available: ICurrency::from_bits(0),
            held: UCurrency::from_bits(0),
        }
    }

    /// What a deposit does: available grows by the amount; fails only when
    /// the available balance would leave the signed range. The lock is
    /// deliberately not checked: deposits are always allowed.
    pub open spec fn spec_deposit(self, amount: UCurrency) -> Result<
        ClientAccount,
        TransactionExecutionError,
    > {
        if self.available@ + amount@ > i64::MAX {
            Err(TransactionExecutionError::Overflow)
        } else {
            Ok(ClientAccount { available: ICurrency::spec_from_int(self.available@ + amount@), ..self })
        }
    }

    pub fn deposit(self, deposit: Deposit) -> (r: Result<Self, TransactionExecutionError>)
        requires
            self.id == deposit.client,
        ensures
            r == self.spec_deposit(deposit.amount),
    {
        match self.available.checked_add_unsigned(deposit.amount) {
            Some(available) => Ok(ClientAccount { available, ..self }),
            None => Err(TransactionExecutionError::Overflow),
        }
    }

    /// What a withdrawal does: fails on a locked account; otherwise the
    /// amount is subtracted from available (signalling `Underflow` only on
    /// true numeric underflow of the representation) and a negative result
    /// is then rejected as `InsufficientFunds`.
    pub open spec fn spec_withdraw(self, amount: UCurrency) -> Result<
        ClientAccount,
        TransactionExecutionError,
    > {
        if self.locked {
            Err(TransactionExecutionError::AccountLocked)
        } else if self.available@ - amount@ < i64::MIN {
            Err(TransactionExecutionError::Underflow)
        } else if self.available@ - amount@ < 0 {
            Err(TransactionExecutionError::InsufficientFunds)
        } else {
            Ok(ClientAccount { available: ICurrency::spec_from_int(self.available@ - amount@), ..self })
        }
    }

    pub fn withdraw(self, withdrawal: Withdrawal) -> (r: Result<Self, TransactionExecutionError>)
        requires
            self.id == withdrawal.client,
        ensures
            r == self.spec_withdraw(withdrawal.amount),
    {
        if self.locked {
            return Err(TransactionExecutionError::AccountLocked);
        }
        let available = match self.available.checked_sub_unsigned(withdrawal.amount) {
            Some(a) => a,
            None => {
                return Err(TransactionExecutionError::Underflow);
            },
        };
        if available.is_negative() {
            return Err(TransactionExecutionError::InsufficientFunds);
        }
        Ok(ClientAccount { available, ..self })
    }

    /// What a dispute does: only a deposit in the `Ok` state can be
    /// disputed; its amount moves from available to held and the deposit
    /// becomes `Disputed`.
    pub open spec fn spec_dispute(
        self,
        tx: u32,
        amount: UCurrency,
        deposit_state: DepositState,
    ) -> Result<(ClientAccount, DepositState), TransactionExecutionError> {
        if deposit_state != DepositState::Undisputed {
            Err(TransactionExecutionError::InvalidDepositState {
                tx,
                expected_state: DepositState::Undisputed,
                actual_state: deposit_state,
            })
        } else if self.available@ - amount@ < i64::MIN {
            Err(TransactionExecutionError::Underflow)
        } else if self.held@ + amount@ > u64::MAX {
            Err(TransactionExecutionError::Overflow)
        } else {
            Ok(
                (
                    ClientAccount {
                        available: ICurrency::spec_from_int(self.available@ - amount@),
                        held: UCurrency::spec_from_int(self.held@ + amount@),
                        ..self
                    },
                    DepositState::Disputed,
                ),
            )
        }
    }

    pub fn dispute(
        self,
        dispute: Dispute,
        amount: UCurrency,
        deposit_state: DepositState,
    ) -> (r: Result<(Self, DepositState), TransactionExecutionError>)
        requires
            self.id == dispute.client,
        ensures
            r == self.spec_dispute(dispute.tx, amount, deposit_state),
    {
        if deposit_state != DepositState::Undisputed {
            return Err(TransactionExecutionError::InvalidDepositState {
                tx: dispute.tx,
                expected_state: DepositState::Undisputed,
                actual_state: deposit_state,
            });
        }
        let available = match self.available.checked_sub_unsigned(amount) {
            Some(a) => a,
            None => {
                return Err(TransactionExecutionError::Underflow);
            },
        };
        let held = match self.held.checked_add(amount) {
            Some(h) => h,
            None => {
                return Err(TransactionExecutionError::Overflow);
            },
        };
        Ok((ClientAccount { available, held, ..self }, DepositState::Disputed))
    }

    /// What a resolve does: only a `Disputed` deposit can be resolved; its
    /// amount moves back from held to available and the deposit returns to
    /// `Ok`. The held balance covering the amount is a caller invariant, not
    /// a user-facing error.
    pub open spec fn spec_resolve(
        self,
        tx: u32,
        amount: UCurrency,
        deposit_state: DepositState,
    ) -> Result<(ClientAccount, DepositState), TransactionExecutionError> {
        if deposit_state != DepositState::Disputed {
            Err(TransactionExecutionError::InvalidDepositState {
                tx,
                expected_state: DepositState::Disputed,
                actual_state: deposit_state,
            })
        } else if self.available@ + amount@ > i64::MAX {
            Err(TransactionExecutionError::Overflow)
        } else {
            Ok(
                (
                    ClientAccount {
                        available: ICurrency::spec_from_int(self.available@ + amount@),
                        held: UCurrency::spec_from_int(self.held@ - amount@),
                        ..self
                    },
                    DepositState::Undisputed,
                ),
            )
        }
    }

    pub fn resolve(
        self,
        resolve: Resolve,
        amount: UCurrency,
        deposit_state: DepositState,
    ) -> (r: Result<(Self, DepositState), TransactionExecutionError>)
        requires
            self.id == resolve.client,
            deposit_state == DepositState::Disputed ==> amount@ <= self.held@,
        ensures
            r == self.spec_resolve(resolve.tx, amount, deposit_state),
    {
        if deposit_state != DepositState::Disputed {
            return Err(TransactionExecutionError::InvalidDepositState {
                tx: resolve.tx,
                expected_state: DepositState::Disputed,
                actual_state: deposit_state,
            });
        }
        let available = match self.available.checked_add_unsigned(amount) {
            Some(a) => a,
            None => {
                return Err(TransactionExecutionError::Overflow);
            },
        };
        // The held balance always covers the disputed amount: a programming
        // invariant of the ledger, guaranteed here by the precondition.
        let held = self.held.checked_sub(amount).unwrap();
        Ok((ClientAccount { available, held, ..self }, DepositState::Undisputed))
    }

    /// What a chargeback does: only a `Disputed` deposit can be charged
    /// back; its amount leaves the held balance and the account is locked
    /// for good. The held balance covering the amount is a caller invariant.
    pub open spec fn spec_charge_back(
        self,
        tx: u32,
        amount: UCurrency,
        deposit_state: DepositState,
    ) -> Result<(ClientAccount, DepositState), TransactionExecutionError> {
        if deposit_state != DepositState::Disputed {
            Err(TransactionExecutionError::InvalidDepositState {
                tx,
                expected_state: DepositState::Disputed,
                actual_state: deposit_state,
            })
        } else {
            Ok(
                (
                    ClientAccount {
                        held: UCurrency::spec_from_int(self.held@ - amount@),
                        locked: true,
                        ..self
                    },
                    DepositState::ChargedBack,
                ),
            )
        }
    }

    pub fn charge_back(
        self,
        charge_back: ChargeBack,
        amount: UCurrency,
        deposit_state: DepositState,
    ) -> (r: Result<(Self, DepositState), TransactionExecutionError>)
        requires
            self.id == charge_back.client,
            deposit_state == DepositState::Disputed ==> amount@ <= self.held@,
        ensures
            r == self.spec_charge_back(charge_back.tx, amount, deposit_state),
    {
        if deposit_state != DepositState::Disputed {
            return Err(TransactionExecutionError::InvalidDepositState {
                tx: charge_back.tx,
                expected_state: DepositState::Disputed,
                actual_state: deposit_state,
            });
        }
        // Same programming invariant as in `resolve`.
        let held = self.held.checked_sub(amount).unwrap();
        Ok((ClientAccount { held, locked: true, ..self }, DepositState::ChargedBack))
    }

    /// The account's total funds: available plus held. The sum fitting the
    /// signed range is a caller obligation; overflow here is a detectable,
    /// non-recoverable condition, not an error value.
    pub fn total(&self) -> (r: ICurrency)
        requires
            self.available@ + self.held@ <= i64::MAX,
        ensures
            r@ == self.available@ + self.held@,
    {
        self.available.checked_add_unsigned(self.held).unwrap()
    }
}

} // verus!
