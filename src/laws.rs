use crate::jar::GainJar;
use crate::types::{Account, GainJarErrors, PaymentExecuted};
use crate::word::Uint256;
use vstd::prelude::*;

verus! {

/// Allow-listing one token twice for one employer: the first request
/// succeeds and lengthens the employer's list by exactly one; the second is
/// refused with `TokenAlreadyAllowed` and leaves the ledger as it was.
pub proof fn lemma_allow_list_idempotent(
    j0: GainJar,
    j1: GainJar,
    j2: GainJar,
    employer: Account,
    token: Account,
    r1: Result<(), GainJarErrors>,
    r2: Result<(), GainJarErrors>,
)
    requires
        !j0.allows(employer, token),
        j0.allow_step(j1, employer, token, r1),
        j1.allow_step(j2, employer, token, r2),
    ensures
        r1 is Ok,
        r2 == Err::<(), GainJarErrors>(GainJarErrors::TokenAlreadyAllowed),
        j2 == j1,
        j2.allowed_tokens(employer).len() == j0.allowed_tokens(employer).len() + 1,
{
    assert(j1.allowed_tokens(employer).last() == token);
    assert(j1.allows(employer, token));
}

/// A payment request that re-enters while the transfer of a successful one
/// is under way, for the same employer, employee and token, sees the balance
/// already reduced and the cycle already moved on. Unless a second full
/// interval has elapsed and the balance covers a second salary, it is
/// refused, with `PaymentNotDue` or `InsufficientFunds`, and changes nothing.
pub proof fn lemma_reentrant_payment_refused(
    j0: GainJar,
    j1: GainJar,
    j2: GainJar,
    caller: Account,
    employer: Account,
    employee: Account,
    token: Account,
    now: Uint256,
    r1: Result<PaymentExecuted, GainJarErrors>,
    r2: Result<PaymentExecuted, GainJarErrors>,
)
    requires
        j0.payment_step(j1, caller, employer, employee, token, now, r1),
        r1 is Ok,
        j1.payment_step(j2, caller, employer, employee, token, now, r2),
        ({
            let rec = j0.record_of(employer, employee).unwrap();
            now.value() < rec.last_payment.value() + 2 * rec.payment_interval.value()
                || j0.balance_of(employer, token) < 2 * rec.salary_amount.value()
        }),
    ensures
        ({
            let rec = j0.record_of(employer, employee).unwrap();
            &&& j1.balance_of(employer, token) == j0.balance_of(employer, token)
                - rec.salary_amount.value()
            &&& j1.record_of(employer, employee).unwrap().last_payment.value()
                == rec.last_payment.value() + rec.payment_interval.value()
        }),
        r2 == Err::<PaymentExecuted, GainJarErrors>(GainJarErrors::PaymentNotDue) || r2 == Err::<
            PaymentExecuted,
            GainJarErrors,
        >(GainJarErrors::InsufficientFunds),
        j2 == j1,
{
    assert(j1.allowed_tokens(employer) == j0.allowed_tokens(employer));
}

/// What an operation under one employer returns depends on that employer's
/// partition alone: two ledgers that agree on it give the same outcome to
/// every payment, deposit, registration and allow-list query under it.
pub proof fn lemma_outcomes_read_own_partition(
    j: GainJar,
    k: GainJar,
    employer: Account,
    caller: Account,
    employee: Account,
    token: Account,
    amount: Uint256,
    payment_interval: Uint256,
    now: Uint256,
)
    requires
        j.same_partition(k, employer),
    ensures
        j.payment_outcome(caller, employer, employee, token, now) == k.payment_outcome(
            caller,
            employer,
            employee,
            token,
            now,
        ),
        j.deposit_outcome(employer, token, amount) == k.deposit_outcome(employer, token, amount),
        j.add_employee_outcome(employer, employee, payment_interval) == k.add_employee_outcome(
            employer,
            employee,
            payment_interval,
        ),
        j.allows(employer, token) == k.allows(employer, token),
{
    assert(j.record_of(employer, employee) == k.record_of(employer, employee));
    assert(j.balance_of(employer, token) == k.balance_of(employer, token));
}

/// A payment under one employer leaves every other employer's partition as
/// it was.
pub proof fn lemma_payment_keeps_other_partitions(
    j0: GainJar,
    j1: GainJar,
    caller: Account,
    employer: Account,
    employee: Account,
    token: Account,
    now: Uint256,
    r: Result<PaymentExecuted, GainJarErrors>,
    other: Account,
)
    requires
        j0.payment_step(j1, caller, employer, employee, token, now, r),
        other != employer,
    ensures
        j1.same_partition(j0, other),
{
    assert forall|x: Account| #[trigger] j1.record_of(other, x) == j0.record_of(other, x) by {}
    assert forall|t: Account| #[trigger] j1.balance_of(other, t) == j0.balance_of(other, t) by {}
}

/// Allow-listing a token for one employer leaves every other employer's
/// partition as it was.
pub proof fn lemma_allow_keeps_other_partitions(
    j0: GainJar,
    j1: GainJar,
    employer: Account,
    token: Account,
    r: Result<(), GainJarErrors>,
    other: Account,
)
    requires
        j0.allow_step(j1, employer, token, r),
        other != employer,
    ensures
        j1.same_partition(j0, other),
{
    assert(j1.allowed_tokens(other) == j0.allowed_tokens(other));
}

} // verus!
