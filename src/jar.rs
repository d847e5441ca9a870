use crate::types::{
    Account, EmployeeAdded, EmployeeRecord, FundsDeposited, GainJarErrors, PaymentExecuted,
};
use crate::store::{
    balance_in, by_employer, employer_tokens, holding_entry_at, holdings_unique,
    lemma_balance_in_at, lemma_holdings_replace, lemma_record_in_at, lemma_staff_replace,
    lemma_tokens_contains, lemma_tokens_push, record_in, staff_entry_at, staff_unique, token_part,
    Holding, StaffEntry,
};
use crate::word::{checked_add, checked_sub, lemma_value_below_modulus, word_modulus, Uint256};
use vstd::prelude::*;

verus! {

broadcast use vstd::seq_lib::group_seq_properties;

/// The payroll ledger shared by all employers. Every employer owns its own
/// partition: an allow-list of tokens, a balance per token and a registry of
/// employees, none of which an operation of another employer reads or changes.
pub struct GainJar {
    /// (employer, token) pairs in the order they were allow-listed.
    allowed: Vec<(Account, Account)>,
    staff: Vec<StaffEntry>,
    holdings: Vec<Holding>,
}

impl GainJar {
    /// The tokens `employer` has allow-listed, in the order they were added.
    pub closed spec fn allowed_tokens(self, employer: Account) -> Seq<Account> {
        employer_tokens(self.allowed@, employer)
    }

    /// Whether `employer` has allow-listed `token`.
    pub open spec fn allows(self, employer: Account, token: Account) -> bool {
        self.allowed_tokens(employer).contains(token)
    }

    spec fn staff_at(self, i: int, employer: Account, employee: Account) -> bool {
        staff_entry_at(self.staff@, i, employer, employee)
    }

    spec fn holding_at(self, i: int, employer: Account, token: Account) -> bool {
        holding_entry_at(self.holdings@, i, employer, token)
    }

    /// The record `employer` keeps on `employee`, if there is one.
    pub closed spec fn record_of(self, employer: Account, employee: Account) -> Option<
        EmployeeRecord,
    > {
        record_in(self.staff@, employer, employee)
    }

    /// The amount of `token` that `employer` holds; zero before any deposit.
    pub closed spec fn balance_of(self, employer: Account, token: Account) -> nat {
        balance_in(self.holdings@, employer, token)
    }

    /// What registering `employee` under `employer` returns: a zero interval
    /// is refused first, then a second registration.
    pub open spec fn add_employee_outcome(
        self,
        employer: Account,
        employee: Account,
        payment_interval: Uint256,
    ) -> Result<EmployeeAdded, GainJarErrors> {
        if payment_interval.value() == 0 {
            Err(GainJarErrors::InvalidPaymentInterval)
        } else if self.record_of(employer, employee) is Some {
            Err(GainJarErrors::EmployeeAlreadyExists)
        } else {
            Ok(EmployeeAdded { employer, employee })
        }
    }

    /// What a deposit of `amount` of `token` by `employer` returns.
    pub open spec fn deposit_outcome(
        self,
        employer: Account,
        token: Account,
        amount: Uint256,
    ) -> Result<FundsDeposited, GainJarErrors> {
        if self.allows(employer, token) {
            Ok(FundsDeposited { employer, amount })
        } else {
            Err(GainJarErrors::TokenNotAllowed)
        }
    }

    /// What a request by `caller` to pay `employee` of `employer` in `token`
    /// at time `now` returns. The employer and the employee themselves may ask
    /// for the payment; the checks come in this order: who asks, whether the
    /// employee is registered and active, whether the interval has elapsed
    /// since the last paid cycle, whether the token is allow-listed, whether
    /// the balance covers the salary.
    pub open spec fn payment_outcome(
        self,
        caller: Account,
        employer: Account,
        employee: Account,
        token: Account,
        now: Uint256,
    ) -> Result<PaymentExecuted, GainJarErrors> {
        if caller != employer && caller != employee {
            Err(GainJarErrors::Unauthorized)
        } else if self.record_of(employer, employee) is None {
            Err(GainJarErrors::EmployeeNotFound)
        } else {
            let rec = self.record_of(employer, employee).unwrap();
            if !rec.is_active {
                Err(GainJarErrors::EmployeeNotFound)
            } else if now.value() < rec.last_payment.value() + rec.payment_interval.value() {
                Err(GainJarErrors::PaymentNotDue)
            } else if !self.allows(employer, token) {
                Err(GainJarErrors::TokenNotAllowed)
            } else if self.balance_of(employer, token) < rec.salary_amount.value() {
                Err(GainJarErrors::InsufficientFunds)
            } else {
                Ok(PaymentExecuted { employer, employee, amount: rec.salary_amount })
            }
        }
    }

    /// A payment request takes the ledger from `self` to `after` and returns
    /// `r`: a refused one changes nothing; one that succeeds takes the salary
    /// off the employer's balance of `token` and moves the record's last paid
    /// cycle on by exactly one interval, and changes nothing else.
    pub open spec fn payment_step(
        self,
        after: GainJar,
        caller: Account,
        employer: Account,
        employee: Account,
        token: Account,
        now: Uint256,
        r: Result<PaymentExecuted, GainJarErrors>,
    ) -> bool {
        let rec = self.record_of(employer, employee).unwrap();
        &&& r == self.payment_outcome(caller, employer, employee, token, now)
        &&& r is Err ==> after == self
        &&& r is Ok ==> {
            &&& after.balance_of(employer, token) == self.balance_of(employer, token)
                - rec.salary_amount.value()
            &&& after.record_of(employer, employee) is Some
            &&& advanced(rec, after.record_of(employer, employee).unwrap())
        }
        &&& after.same_balances_except(self, employer, token)
        &&& after.same_records_except(self, employer, employee)
        &&& after.same_allow_lists(self)
    }

    /// Allow-listing `token` for `employer` takes the ledger from `self` to
    /// `after` and returns `r`: a token already on the list is refused and
    /// nothing changes; any other is appended to the employer's list, and
    /// nothing else changes.
    pub open spec fn allow_step(
        self,
        after: GainJar,
        employer: Account,
        token: Account,
        r: Result<(), GainJarErrors>,
    ) -> bool {
        &&& self.allows(employer, token) ==> r == Err::<(), GainJarErrors>(
            GainJarErrors::TokenAlreadyAllowed,
        ) && after == self
        &&& !self.allows(employer, token) ==> r is Ok && after.allowed_tokens(employer)
            == self.allowed_tokens(employer).push(token) && after.allows(employer, token)
        &&& forall|b: Account|
            b != employer ==> #[trigger] after.allowed_tokens(b) == self.allowed_tokens(b)
        &&& after.same_records(self)
        &&& after.same_balances(self)
    }

    /// `self` and `other` agree on everything filed under `employer`: its
    /// allow-list, its records and its balances.
    pub open spec fn same_partition(self, other: GainJar, employer: Account) -> bool {
        &&& self.allowed_tokens(employer) == other.allowed_tokens(employer)
        &&& forall|x: Account|
            #[trigger] self.record_of(employer, x) == other.record_of(employer, x)
        &&& forall|t: Account|
            #[trigger] self.balance_of(employer, t) == other.balance_of(employer, t)
    }

    /// The ledger's invariant: no token is allow-listed twice by one employer,
    /// an employer keeps at most one record per employee and one balance per
    /// token, and every payment interval is positive.
    pub closed spec fn wf(self) -> bool {
        &&& self.allowed@.no_duplicates()
        &&& staff_unique(self.staff@)
        &&& forall|i: int|
            0 <= i < self.staff@.len() ==> #[trigger] self.staff@[i].record.payment_interval.value()
                > 0
        &&& holdings_unique(self.holdings@)
    }

    /// Every employer's allow-list is the same in both ledgers.
    pub open spec fn same_allow_lists(self, other: GainJar) -> bool {
        forall|b: Account| #[trigger] self.allowed_tokens(b) == other.allowed_tokens(b)
    }

    /// Every record is the same in both ledgers, but perhaps the one that
    /// `employer` keeps on `employee`.
    pub open spec fn same_records_except(
        self,
        other: GainJar,
        employer: Account,
        employee: Account,
    ) -> bool {
        forall|b: Account, x: Account|
            !(b == employer && x == employee) ==> #[trigger] self.record_of(b, x)
                == other.record_of(b, x)
    }

    /// Every record is the same in both ledgers.
    pub open spec fn same_records(self, other: GainJar) -> bool {
        forall|b: Account, x: Account| #[trigger] self.record_of(b, x) == other.record_of(b, x)
    }

    /// Every balance is the same in both ledgers, but perhaps the one that
    /// `employer` holds of `token`.
    pub open spec fn same_balances_except(
        self,
        other: GainJar,
        employer: Account,
        token: Account,
    ) -> bool {
        forall|b: Account, t: Account|
            !(b == employer && t == token) ==> #[trigger] self.balance_of(b, t)
                == other.balance_of(b, t)
    }

    /// Every balance is the same in both ledgers.
    pub open spec fn same_balances(self, other: GainJar) -> bool {
        forall|b: Account, t: Account| #[trigger] self.balance_of(b, t) == other.balance_of(b, t)
    }

    proof fn lemma_same_staff(self, other: GainJar)
        requires
            self.staff@ == other.staff@,
        ensures
            self.same_records(other),
    {
    }

    proof fn lemma_same_holdings(self, other: GainJar)
        requires
            self.holdings@ == other.holdings@,
        ensures
            self.same_balances(other),
    {
    }

    proof fn lemma_record_at(self, i: int, employer: Account, employee: Account)
        requires
            self.wf(),
            self.staff_at(i, employer, employee),
        ensures
            self.record_of(employer, employee) == Some(self.staff@[i].record),
    {
        lemma_record_in_at(self.staff@, i, employer, employee);
    }

    proof fn lemma_balance_at(self, i: int, employer: Account, token: Account)
        requires
            self.wf(),
            self.holding_at(i, employer, token),
        ensures
            self.balance_of(employer, token) == self.holdings@[i].amount.value(),
    {
        lemma_balance_in_at(self.holdings@, i, employer, token);
    }

    /// A ledger with no tokens, balances or employees.
    pub fn new() -> (r: GainJar)
        ensures
            r.wf(),
            forall|b: Account| #[trigger] r.allowed_tokens(b) == Seq::<Account>::empty(),
            forall|b: Account, x: Account| #[trigger] r.record_of(b, x) is None,
            forall|b: Account, t: Account| #[trigger] r.balance_of(b, t) == 0,
    {
        let r = GainJar { allowed: Vec::new(), staff: Vec::new(), holdings: Vec::new() };
        assert forall|b: Account| #[trigger] r.allowed_tokens(b) == Seq::<Account>::empty() by {
            reveal(Seq::filter);
            assert(r.allowed@.filter(by_employer(b)).map_values(token_part()) =~= Seq::<
                Account,
            >::empty());
        }
        r
    }

    /// Whether `employer` has allow-listed `token`.
    pub fn is_allowed(&self, employer: Account, token: Account) -> (r: bool)
        ensures
            r == self.allows(employer, token),
    {
        let mut i: usize = 0;
        while i < self.allowed.len()
            invariant
                i <= self.allowed@.len(),
                forall|j: int| 0 <= j < i ==> self.allowed@[j] != (employer, token),
            decreases self.allowed@.len() - i,
        {
            let (e, t) = self.allowed[i];
            if e.same_as(&employer) && t.same_as(&token) {
                assert(self.allowed@[i as int] == (employer, token));
                proof {
                    lemma_tokens_contains(self.allowed@, employer, token);
                }
                return true;
            }
            i = i + 1;
        }
        proof {
            lemma_tokens_contains(self.allowed@, employer, token);
        }
        false
    }

    /// The tokens `employer` has allow-listed, in the order they were added.
    pub fn allowed_token_list(&self, employer: Account) -> (r: Vec<Account>)
        ensures
            r@ == self.allowed_tokens(employer),
    {
        let mut r: Vec<Account> = Vec::new();
        let mut i: usize = 0;
        while i < self.allowed.len()
            invariant
                i <= self.allowed@.len(),
                r@ == employer_tokens(self.allowed@.take(i as int), employer),
            decreases self.allowed@.len() - i,
        {
            let (e, t) = self.allowed[i];
            proof {
                assert(self.allowed@.take(i + 1) =~= self.allowed@.take(i as int).push(
                    self.allowed@[i as int],
                ));
                lemma_tokens_push(self.allowed@.take(i as int), self.allowed@[i as int], employer);
            }
            if e.same_as(&employer) {
                r.push(t);
            }
            i = i + 1;
        }
        assert(self.allowed@.take(self.allowed@.len() as int) =~= self.allowed@);
        r
    }

    /// Allow-lists `token` for `caller`, refusing a token already on the list.
    pub fn add_allowed_token(&mut self, caller: Account, token: Account) -> (r: Result<
        (),
        GainJarErrors,
    >)
        requires
            old(self).wf(),
        ensures
            final(self).wf(),
            old(self).allow_step(*final(self), caller, token, r),
    {
        if self.is_allowed(caller, token) {
            return Err(GainJarErrors::TokenAlreadyAllowed);
        }
        let ghost before = *self;
        proof {
            lemma_tokens_contains(self.allowed@, caller, token);
        }
        self.allowed.push((caller, token));
        proof {
            assert forall|b: Account|
                #[trigger] self.allowed_tokens(b) == if b == caller {
                    before.allowed_tokens(b).push(token)
                } else {
                    before.allowed_tokens(b)
                } by {
                lemma_tokens_push(before.allowed@, (caller, token), b);
            }
            assert(self.allowed@.no_duplicates());
            self.lemma_same_staff(before);
            self.lemma_same_holdings(before);
        }
        Ok(())
    }

    /// The index of the record `employer` keeps on `employee`, if any.
    fn find_staff(&self, employer: Account, employee: Account) -> (r: Option<usize>)
        requires
            self.wf(),
        ensures
            match r {
                Some(i) => self.staff_at(i as int, employer, employee) && self.record_of(
                    employer,
                    employee,
                ) == Some(self.staff@[i as int].record),
                None => self.record_of(employer, employee) is None,
            },
    {
        let mut i: usize = 0;
        while i < self.staff.len()
            invariant
                i <= self.staff@.len(),
                self.wf(),
                forall|j: int| 0 <= j < i ==> !self.staff_at(j, employer, employee),
            decreases self.staff@.len() - i,
        {
            if self.staff[i].employer.same_as(&employer) && self.staff[i].record.wallet.same_as(
                &employee,
            ) {
                proof {
                    self.lemma_record_at(i as int, employer, employee);
                }
                return Some(i);
            }
            i = i + 1;
        }
        assert forall|j: int| !staff_entry_at(self.staff@, j, employer, employee) by {
            assert(!self.staff_at(j, employer, employee));
        }
        None
    }

    /// The index of what `employer` holds of `token`, if any.
    fn find_holding(&self, employer: Account, token: Account) -> (r: Option<usize>)
        requires
            self.wf(),
        ensures
            match r {
                Some(i) => self.holding_at(i as int, employer, token) && self.balance_of(
                    employer,
                    token,
                ) == self.holdings@[i as int].amount.value(),
                None => self.balance_of(employer, token) == 0 && forall|j: int|
                    !self.holding_at(j, employer, token),
            },
    {
        let mut i: usize = 0;
        while i < self.holdings.len()
            invariant
                i <= self.holdings@.len(),
                self.wf(),
                forall|j: int| 0 <= j < i ==> !self.holding_at(j, employer, token),
            decreases self.holdings@.len() - i,
        {
            if self.holdings[i].employer.same_as(&employer) && self.holdings[i].token.same_as(
                &token,
            ) {
                proof {
                    self.lemma_balance_at(i as int, employer, token);
                }
                return Some(i);
            }
            i = i + 1;
        }
        assert forall|j: int| !holding_entry_at(self.holdings@, j, employer, token) by {
            assert(!self.holding_at(j, employer, token));
        }
        None
    }

    /// The record `employer` keeps on `employee`.
    pub fn lookup(&self, employer: Account, employee: Account) -> (r: Result<
        EmployeeRecord,
        GainJarErrors,
    >)
        requires
            self.wf(),
        ensures
            r == match self.record_of(employer, employee) {
                Some(rec) => Ok::<EmployeeRecord, GainJarErrors>(rec),
                None => Err(GainJarErrors::EmployeeNotFound),
            },
    {
        match self.find_staff(employer, employee) {
            Some(i) => Ok(self.staff[i].record),
            None => Err(GainJarErrors::EmployeeNotFound),
        }
    }

    /// The amount of `token` that `employer` holds.
    pub fn balance(&self, employer: Account, token: Account) -> (r: Uint256)
        requires
            self.wf(),
        ensures
            r.value() == self.balance_of(employer, token),
    {
        match self.find_holding(employer, token) {
            Some(i) => self.holdings[i].amount,
            None => Uint256::zero(),
        }
    }
    /// Credits `amount` of `token` to `caller`, refusing a token that `caller`
    /// has not allow-listed. A zero amount leaves the balance as it was.
    pub fn deposit(&mut self, caller: Account, token: Account, amount: Uint256) -> (r: Result<
        FundsDeposited,
        GainJarErrors,
    >)
        requires
            old(self).wf(),
            old(self).allows(caller, token) ==> old(self).balance_of(caller, token)
                + amount.value() < word_modulus(),
        ensures
            final(self).wf(),
            r == old(self).deposit_outcome(caller, token, amount),
            (r is Err) ==> *final(self) == *old(self),
            (r is Ok) ==> final(self).balance_of(caller, token) == old(self).balance_of(
                caller,
                token,
            ) + amount.value(),
            final(self).same_balances_except(*old(self), caller, token),
            final(self).same_allow_lists(*old(self)),
            final(self).same_records(*old(self)),
    {
        if !self.is_allowed(caller, token) {
            return Err(GainJarErrors::TokenNotAllowed);
        }
        let slot = self.find_holding(caller, token);
        let held = self.balance(caller, token);
        match checked_add(held, amount) {
            Some(total) => {
                self.put_balance(slot, caller, token, total);
            },
            None => {
                // Unreachable: the precondition keeps the sum below 2^256.
            },
        }
        Ok(FundsDeposited { employer: caller, amount })
    }

    /// Files `record` under `employer`: in place of the entry at `slot`, or
    /// as a new entry where there is none.
    fn put_record(&mut self, slot: Option<usize>, employer: Account, record: EmployeeRecord)
        requires
            old(self).wf(),
            record.payment_interval.value() > 0,
            slot.is_some() ==> old(self).staff_at(slot.unwrap() as int, employer, record.wallet),
            slot.is_none() ==> (old(self).record_of(employer, record.wallet) is None),
        ensures
            final(self).wf(),
            final(self).record_of(employer, record.wallet) == Some(record),
            final(self).holdings@ == old(self).holdings@,
            final(self).allowed@ == old(self).allowed@,
            final(self).same_records_except(*old(self), employer, record.wallet),
            final(self).same_allow_lists(*old(self)),
            final(self).same_balances(*old(self)),
    {
        let ghost before = *self;
        let entry = StaffEntry { employer, record };
        match slot {
            Some(i) => {
                proof {
                    let after = before.staff@.update(i as int, entry);
                    lemma_staff_replace(before.staff@, after, i as int, entry);
                }
                self.staff[i] = entry;
            },
            None => {
                proof {
                    let end = before.staff@.len() as int;
                    lemma_staff_replace(before.staff@, before.staff@.push(entry), end, entry);
                }
                self.staff.push(entry);
            },
        }
        proof {
            self.lemma_same_holdings(before);
            assert forall|i: int| 0 <= i < self.staff@.len() implies #[trigger]
                self.staff@[i].record.payment_interval.value() > 0 by {
                if i < before.staff@.len() && self.staff@[i] != entry {
                    assert(self.staff@[i] == before.staff@[i]);
                }
            }
        }
    }

    /// Sets what `employer` holds of `token` to `amount`: in the entry at
    /// `slot`, or in a new entry where there is none.
    fn put_balance(
        &mut self,
        slot: Option<usize>,
        employer: Account,
        token: Account,
        amount: Uint256,
    )
        requires
            old(self).wf(),
            slot.is_some() ==> old(self).holding_at(slot.unwrap() as int, employer, token),
            slot.is_none() ==> (forall|j: int| !old(self).holding_at(j, employer, token)),
        ensures
            final(self).wf(),
            final(self).balance_of(employer, token) == amount.value(),
            final(self).staff@ == old(self).staff@,
            final(self).allowed@ == old(self).allowed@,
            final(self).same_balances_except(*old(self), employer, token),
            final(self).same_allow_lists(*old(self)),
            final(self).same_records(*old(self)),
    {
        let ghost before = *self;
        let entry = Holding { employer, token, amount };
        match slot {
            Some(i) => {
                proof {
                    let after = before.holdings@.update(i as int, entry);
                    lemma_holdings_replace(before.holdings@, after, i as int, entry);
                }
                self.holdings[i] = entry;
            },
            None => {
                proof {
                    assert forall|k: int|
                        !holding_entry_at(before.holdings@, k, employer, token) by {
                        assert(!before.holding_at(k, employer, token));
                    }
                    let end = before.holdings@.len() as int;
                    let after = before.holdings@.push(entry);
                    lemma_holdings_replace(before.holdings@, after, end, entry);
                }
                self.holdings.push(entry);
            },
        }
        proof {
            self.lemma_same_staff(before);
        }
    }

    /// Registers `employee` under `caller` with the given salary and payment
    /// interval; the first cycle starts at `now`. A zero interval and a second
    /// registration of one employee are refused.
    pub fn add_employee(
        &mut self,
        caller: Account,
        employee: Account,
        salary_amount: Uint256,
        payment_interval: Uint256,
        now: Uint256,
    ) -> (r: Result<EmployeeAdded, GainJarErrors>)
        requires
            old(self).wf(),
        ensures
            final(self).wf(),
            r == old(self).add_employee_outcome(caller, employee, payment_interval),
            (r is Err) ==> *final(self) == *old(self),
            (r is Ok) ==> final(self).record_of(caller, employee) == Some(
                fresh_record(employee, salary_amount, payment_interval, now),
            ),
            final(self).same_records_except(*old(self), caller, employee),
            final(self).same_allow_lists(*old(self)),
            final(self).same_balances(*old(self)),
    {
        if payment_interval.is_zero() {
            return Err(GainJarErrors::InvalidPaymentInterval);
        }
        if self.find_staff(caller, employee).is_some() {
            return Err(GainJarErrors::EmployeeAlreadyExists);
        }
        let record = EmployeeRecord {
            wallet: employee,
            salary_amount,
            last_payment: now,
            payment_interval,
            is_active: true,
        };
        self.put_record(None, caller, record);
        Ok(EmployeeAdded { employer: caller, employee })
    }

    /// Suspends payments to `employee` under `caller`; the record is kept.
    pub fn deactivate(&mut self, caller: Account, employee: Account) -> (r: Result<
        (),
        GainJarErrors,
    >)
        requires
            old(self).wf(),
        ensures
            final(self).wf(),
            (old(self).record_of(caller, employee) is None) ==> r == Err::<(), GainJarErrors>(
                GainJarErrors::EmployeeNotFound,
            ) && *final(self) == *old(self),
            (old(self).record_of(caller, employee) is Some) ==> (r is Ok) && final(self).record_of(
                caller,
                employee,
            ) == Some(deactivated(old(self).record_of(caller, employee).unwrap())),
            final(self).same_records_except(*old(self), caller, employee),
            final(self).same_allow_lists(*old(self)),
            final(self).same_balances(*old(self)),
    {
        match self.find_staff(caller, employee) {
            None => Err(GainJarErrors::EmployeeNotFound),
            Some(i) => {
                let rec = self.staff[i].record;
                let record = EmployeeRecord {
                    wallet: rec.wallet,
                    salary_amount: rec.salary_amount,
                    last_payment: rec.last_payment,
                    payment_interval: rec.payment_interval,
                    is_active: false,
                };
                self.put_record(Some(i), caller, record);
                Ok(())
            },
        }
    }

    /// Pays `employee` of `employer` one salary in `token`, at the request of
    /// `caller` at time `now`. The ledger is updated before this returns; the
    /// returned notice names the transfer that the caller is then to make.
    /// Only one cycle is paid per call, however many have elapsed.
    pub fn execute_payment(
        &mut self,
        caller: Account,
        employer: Account,
        employee: Account,
        token: Account,
        now: Uint256,
    ) -> (r: Result<PaymentExecuted, GainJarErrors>)
        requires
            old(self).wf(),
        ensures
            final(self).wf(),
            old(self).payment_step(*final(self), caller, employer, employee, token, now, r),
    {
        if !caller.same_as(&employer) && !caller.same_as(&employee) {
            return Err(GainJarErrors::Unauthorized);
        }
        let slot = match self.find_staff(employer, employee) {
            Some(i) => i,
            None => {
                return Err(GainJarErrors::EmployeeNotFound);
            },
        };
        let rec = self.staff[slot].record;
        if !rec.is_active {
            return Err(GainJarErrors::EmployeeNotFound);
        }
        let due = match checked_add(rec.last_payment, rec.payment_interval) {
            Some(d) => d,
            None => {
                proof {
                    lemma_value_below_modulus(now);
                }
                return Err(GainJarErrors::PaymentNotDue);
            },
        };
        if checked_sub(now, due).is_none() {
            return Err(GainJarErrors::PaymentNotDue);
        }
        if !self.is_allowed(employer, token) {
            return Err(GainJarErrors::TokenNotAllowed);
        }
        let held_slot = self.find_holding(employer, token);
        let held = self.balance(employer, token);
        let rest = match checked_sub(held, rec.salary_amount) {
            Some(d) => d,
            None => {
                return Err(GainJarErrors::InsufficientFunds);
            },
        };
        // Both effects land before the caller hands value to the employee, so
        // a request that re-enters during that transfer sees them.
        let paid = EmployeeRecord {
            wallet: rec.wallet,
            salary_amount: rec.salary_amount,
            last_payment: due,
            payment_interval: rec.payment_interval,
            is_active: rec.is_active,
        };
        self.put_balance(held_slot, employer, token, rest);
        proof {
            assert(self.staff_at(slot as int, employer, employee));
        }
        self.put_record(Some(slot), employer, paid);
        Ok(PaymentExecuted { employer, employee, amount: rec.salary_amount })
    }
}

/// The record of a newly registered employee: active, its first cycle
/// starting at `now`.
pub open spec fn fresh_record(
    employee: Account,
    salary_amount: Uint256,
    payment_interval: Uint256,
    now: Uint256,
) -> EmployeeRecord {
    EmployeeRecord {
        wallet: employee,
        salary_amount,
        last_payment: now,
        payment_interval,
        is_active: true,
    }
}

/// `after` is `before` with its last paid cycle moved on by one interval.
pub open spec fn advanced(before: EmployeeRecord, after: EmployeeRecord) -> bool {
    &&& after.wallet == before.wallet
    &&& after.salary_amount == before.salary_amount
    &&& after.payment_interval == before.payment_interval
    &&& after.is_active == before.is_active
    &&& after.last_payment.value() == before.last_payment.value()
        + before.payment_interval.value()
}

/// `rec` with payments suspended.
pub open spec fn deactivated(rec: EmployeeRecord) -> EmployeeRecord {
    EmployeeRecord { is_active: false, ..rec }
}

} // verus!
