//! The ledger's storage as sequences of keyed entries, and what a lookup by
//! key finds in them.
use crate::types::{Account, EmployeeRecord};
use crate::word::Uint256;
use vstd::prelude::*;

verus! {

broadcast use vstd::seq_lib::group_seq_properties;

/// An employee record filed under its employer.
pub(crate) struct StaffEntry {
    pub(crate) employer: Account,
    pub(crate) record: EmployeeRecord,
}

/// What an employer holds of one token.
pub(crate) struct Holding {
    pub(crate) employer: Account,
    pub(crate) token: Account,
    pub(crate) amount: Uint256,
}

/// Entry `i` of `staff` is filed under (`employer`, `employee`).
pub(crate) open spec fn staff_entry_at(
    staff: Seq<StaffEntry>,
    i: int,
    employer: Account,
    employee: Account,
) -> bool {
    0 <= i < staff.len() && staff[i].employer == employer && staff[i].record.wallet == employee
}

/// Entry `i` of `holdings` is filed under (`employer`, `token`).
pub(crate) open spec fn holding_entry_at(
    holdings: Seq<Holding>,
    i: int,
    employer: Account,
    token: Account,
) -> bool {
    0 <= i < holdings.len() && holdings[i].employer == employer && holdings[i].token == token
}

/// No two entries of `staff` share an (employer, employee) key.
pub(crate) open spec fn staff_unique(staff: Seq<StaffEntry>) -> bool {
    forall|i: int, j: int|
        0 <= i < staff.len() && 0 <= j < staff.len() && i != j ==> !(#[trigger] staff[i].employer
            == #[trigger] staff[j].employer && staff[i].record.wallet == staff[j].record.wallet)
}

/// No two entries of `holdings` share an (employer, token) key.
pub(crate) open spec fn holdings_unique(holdings: Seq<Holding>) -> bool {
    forall|i: int, j: int|
        0 <= i < holdings.len() && 0 <= j < holdings.len() && i != j ==> !(
        #[trigger] holdings[i].employer == #[trigger] holdings[j].employer && holdings[i].token
            == holdings[j].token)
}

pub(crate) proof fn lemma_record_in_at(
    staff: Seq<StaffEntry>,
    i: int,
    employer: Account,
    employee: Account,
)
    requires
        staff_unique(staff),
        staff_entry_at(staff, i, employer, employee),
    ensures
        record_in(staff, employer, employee) == Some(staff[i].record),
{
    let j = choose|j: int| staff_entry_at(staff, j, employer, employee);
    assert(staff_entry_at(staff, j, employer, employee));
}

pub(crate) proof fn lemma_balance_in_at(
    holdings: Seq<Holding>,
    i: int,
    employer: Account,
    token: Account,
)
    requires
        holdings_unique(holdings),
        holding_entry_at(holdings, i, employer, token),
    ensures
        balance_in(holdings, employer, token) == holdings[i].amount.value(),
{
    let j = choose|j: int| holding_entry_at(holdings, j, employer, token);
    assert(holding_entry_at(holdings, j, employer, token));
}

/// Replacing the entry at `i` by one with the same key changes that key's
/// record alone; appending an entry under a fresh key adds that record alone.
pub(crate) proof fn lemma_staff_replace(
    staff: Seq<StaffEntry>,
    after: Seq<StaffEntry>,
    i: int,
    entry: StaffEntry,
)
    requires
        staff_unique(staff),
        0 <= i <= staff.len(),
        i == staff.len() ==> after == staff.push(entry) && (record_in(
            staff,
            entry.employer,
            entry.record.wallet,
        ) is None),
        i < staff.len() ==> after == staff.update(i, entry) && staff[i].employer
            == entry.employer && staff[i].record.wallet == entry.record.wallet,
    ensures
        staff_unique(after),
        record_in(after, entry.employer, entry.record.wallet) == Some(entry.record),
        forall|b: Account, x: Account|
            !(b == entry.employer && x == entry.record.wallet) ==> #[trigger] record_in(after, b, x)
                == record_in(staff, b, x),
{
    assert(after.len() == staff.len() || after.len() == staff.len() + 1);
    assert forall|k: int| 0 <= k < after.len() && k != i implies after[k] == staff[k] by {}
    if i == staff.len() {
        assert forall|k: int| 0 <= k < staff.len() implies !staff_entry_at(
        staff,
        k,
        entry.employer,
        entry.record.wallet,
        ) by {}
    }
    assert forall|p: int, q: int|
        0 <= p < after.len() && 0 <= q < after.len() && p != q implies !(
        #[trigger] after[p].employer == #[trigger] after[q].employer && after[p].record.wallet
        == after[q].record.wallet) by {
        if p == i {
        assert(!staff_entry_at(staff, q, entry.employer, entry.record.wallet));
        } else if q == i {
        assert(!staff_entry_at(staff, p, entry.employer, entry.record.wallet));
        }
    }
    lemma_record_in_at(after, i, entry.employer, entry.record.wallet);
    assert forall|b: Account, x: Account|
        !(b == entry.employer && x == entry.record.wallet) implies #[trigger] record_in(after, b, x)
        == record_in(staff, b, x) by {
        if exists|k: int| staff_entry_at(staff, k, b, x) {
        let k = choose|k: int| staff_entry_at(staff, k, b, x);
        lemma_record_in_at(staff, k, b, x);
        lemma_record_in_at(after, k, b, x);
        }
        if exists|k: int| staff_entry_at(after, k, b, x) {
        let k = choose|k: int| staff_entry_at(after, k, b, x);
        assert(staff_entry_at(staff, k, b, x));
        }
    }
}

/// The same as `lemma_staff_replace`, for balances.
pub(crate) proof fn lemma_holdings_replace(
    holdings: Seq<Holding>,
    after: Seq<Holding>,
    i: int,
    entry: Holding,
)
    requires
        holdings_unique(holdings),
        0 <= i <= holdings.len(),
        i == holdings.len() ==> after == holdings.push(entry) && (forall|k: int|
            !holding_entry_at(holdings, k, entry.employer, entry.token)),
        i < holdings.len() ==> after == holdings.update(i, entry) && holdings[i].employer
            == entry.employer && holdings[i].token == entry.token,
    ensures
        holdings_unique(after),
        balance_in(after, entry.employer, entry.token) == entry.amount.value(),
        forall|b: Account, t: Account|
            !(b == entry.employer && t == entry.token) ==> #[trigger] balance_in(after, b, t)
                == balance_in(holdings, b, t),
{
    assert(after.len() == holdings.len() || after.len() == holdings.len() + 1);
    assert forall|k: int| 0 <= k < after.len() && k != i implies after[k] == holdings[k] by {}
    assert forall|p: int, q: int|
        0 <= p < after.len() && 0 <= q < after.len() && p != q implies !(
        #[trigger] after[p].employer == #[trigger] after[q].employer && after[p].token
        == after[q].token) by {
        if p == i {
        assert(!holding_entry_at(holdings, q, entry.employer, entry.token));
        } else if q == i {
        assert(!holding_entry_at(holdings, p, entry.employer, entry.token));
        }
    }
    lemma_balance_in_at(after, i, entry.employer, entry.token);
    assert forall|b: Account, t: Account|
        !(b == entry.employer && t == entry.token) implies #[trigger] balance_in(after, b, t)
        == balance_in(holdings, b, t) by {
        if exists|k: int| holding_entry_at(holdings, k, b, t) {
        let k = choose|k: int| holding_entry_at(holdings, k, b, t);
        lemma_balance_in_at(holdings, k, b, t);
        lemma_balance_in_at(after, k, b, t);
        }
        if exists|k: int| holding_entry_at(after, k, b, t) {
        let k = choose|k: int| holding_entry_at(after, k, b, t);
        assert(holding_entry_at(holdings, k, b, t));
        }
    }
}

/// The record filed under (`employer`, `employee`) in `staff`, if any.
pub(crate) open spec fn record_in(
    staff: Seq<StaffEntry>,
    employer: Account,
    employee: Account,
) -> Option<EmployeeRecord> {
    if exists|i: int| staff_entry_at(staff, i, employer, employee) {
        Some(staff[choose|i: int| staff_entry_at(staff, i, employer, employee)].record)
    } else {
        None
    }
}

/// The amount filed under (`employer`, `token`) in `holdings`; zero if none.
pub(crate) open spec fn balance_in(
    holdings: Seq<Holding>,
    employer: Account,
    token: Account,
) -> nat {
    if exists|i: int| holding_entry_at(holdings, i, employer, token) {
        holdings[choose|i: int| holding_entry_at(holdings, i, employer, token)].amount.value()
    } else {
        0
    }
}

/// Selects the pairs filed under `employer`.
pub(crate) open spec fn by_employer(employer: Account) -> spec_fn((Account, Account)) -> bool {
    |p: (Account, Account)| p.0 == employer
}

/// The token of an (employer, token) pair.
pub(crate) open spec fn token_part() -> spec_fn((Account, Account)) -> Account {
    |p: (Account, Account)| p.1
}

/// The tokens filed under `employer` in a sequence of (employer, token) pairs.
pub(crate) open spec fn employer_tokens(
    pairs: Seq<(Account, Account)>,
    employer: Account,
) -> Seq<Account> {
    pairs.filter(by_employer(employer)).map_values(token_part())
}

/// A token is on an employer's list exactly when its pair is stored.
pub(crate) proof fn lemma_tokens_contains(
    pairs: Seq<(Account, Account)>,
    employer: Account,
    token: Account,
)
    ensures
        employer_tokens(pairs, employer).contains(token) == pairs.contains((employer, token)),
{
    let f = pairs.filter(by_employer(employer));
    let m = employer_tokens(pairs, employer);
    if pairs.contains((employer, token)) {
        let i = choose|i: int| 0 <= i < pairs.len() && pairs[i] == (employer, token);
        pairs.lemma_filter_contains(by_employer(employer), i);
        let k = choose|k: int| 0 <= k < f.len() && f[k] == pairs[i];
        assert(m[k] == token);
    }
    if m.contains(token) {
        let k = choose|k: int| 0 <= k < m.len() && m[k] == token;
        assert(f.contains(f[k]));
        pairs.lemma_filter_contains_rev(by_employer(employer), f[k]);
        assert(by_employer(employer)(f[k]));
        assert(f[k] == (employer, token));
    }
}

pub(crate) proof fn lemma_tokens_push(
    pairs: Seq<(Account, Account)>,
    pair: (Account, Account),
    employer: Account,
)
    ensures
        employer_tokens(pairs.push(pair), employer) == if pair.0 == employer {
            employer_tokens(pairs, employer).push(pair.1)
        } else {
            employer_tokens(pairs, employer)
        },
{
    pairs.lemma_filter_push(pair, by_employer(employer));
    let f = pairs.filter(by_employer(employer));
    if pair.0 == employer {
        assert(f.push(pair).map_values(token_part()) =~= f.map_values(token_part()).push(pair.1));
    }
}

} // verus!
