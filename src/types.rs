use crate::word::Uint256;
use vstd::prelude::*;

verus! {

/// A 20-byte account or token address.
#[derive(Clone, Copy, Debug, PartialEq, Eq)]
pub struct Account {
    pub bytes: [u8; 20],
}

impl Account {
    /// Whether the two addresses are the same, byte for byte.
    pub fn same_as(&self, other: &Account) -> (r: bool)
        ensures
            r == (*self == *other),
    {
        let mut i: usize = 0;
        while i < 20
            invariant
                i <= 20,
                forall|j: int| 0 <= j < i ==> self.bytes[j] == other.bytes[j],
            decreases 20 - i,
        {
            if self.bytes[i] != other.bytes[i] {
                return false;
            }
            i = i + 1;
        }
        proof {
            assert(self.bytes@ =~= other.bytes@);
            assert(self.bytes == other.bytes);
        }
        true
    }
}

/// Why an operation was refused. A refused operation changes nothing.
#[derive(Clone, Copy, Debug, PartialEq, Eq, Structural)]
pub enum GainJarErrors {
    EmployeeAlreadyExists,
    EmployeeNotFound,
    InsufficientFunds,
    Unauthorized,
    InvalidPaymentInterval,
    TokenNotAllowed,
    TokenAlreadyAllowed,
    /// A payment was asked for before its interval had elapsed.
    PaymentNotDue,
}

/// What an employer keeps on one employee.
#[derive(Clone, Copy, Debug, PartialEq, Eq)]
pub struct EmployeeRecord {
    /// The employee's address, where payments go.
    pub wallet: Account,
    /// The amount paid each cycle.
    pub salary_amount: Uint256,
    /// The end of the most recently paid cycle.
    pub last_payment: Uint256,
    /// The least time between two payments; never zero.
    pub payment_interval: Uint256,
    /// Whether payments may be made; cleared on deactivation.
    pub is_active: bool,
}

/// Notice that `employer` registered `employee`.
#[derive(Clone, Copy, Debug, PartialEq, Eq)]
pub struct EmployeeAdded {
    pub employer: Account,
    pub employee: Account,
}

/// Notice that `employer` deposited `amount`.
#[derive(Clone, Copy, Debug, PartialEq, Eq)]
pub struct FundsDeposited {
    pub employer: Account,
    pub amount: Uint256,
}

/// Notice that `employer` paid `amount` to `employee`; the transfer of the
/// token itself is left to the caller, after the ledger has been updated.
#[derive(Clone, Copy, Debug, PartialEq, Eq)]
pub struct PaymentExecuted {
    pub employer: Account,
    pub employee: Account,
    pub amount: Uint256,
}

} // verus!
