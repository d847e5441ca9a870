use gain_jar::{
    Account, EmployeeAdded, FundsDeposited, GainJar, GainJarErrors, PaymentExecuted, Uint256,
};

fn acct(n: u8) -> Account {
    Account { bytes: [n; 20] }
}

fn w(x: u64) -> Uint256 {
    Uint256::from_u64(x)
}

const T0: u64 = 1_700_000_000;

/// Employer 1 with token 10 allow-listed, `funds` deposited, and employee 2
/// registered at T0 with the given salary and interval.
fn funded(funds: u64, salary: u64, interval: u64) -> GainJar {
    let mut jar = GainJar::new();
    assert_eq!(jar.add_allowed_token(acct(1), acct(10)), Ok(()));
    assert!(jar.deposit(acct(1), acct(10), w(funds)).is_ok());
    assert!(jar.add_employee(acct(1), acct(2), w(salary), w(interval), w(T0)).is_ok());
    jar
}

#[test]
fn allow_list_accepts_a_token_once() {
    let mut jar = GainJar::new();
    assert_eq!(jar.add_allowed_token(acct(1), acct(10)), Ok(()));
    assert_eq!(
        jar.add_allowed_token(acct(1), acct(10)),
        Err(GainJarErrors::TokenAlreadyAllowed)
    );
    assert_eq!(jar.allowed_token_list(acct(1)), vec![acct(10)]);
    assert!(jar.is_allowed(acct(1), acct(10)));
}

#[test]
fn allow_list_keeps_insertion_order() {
    let mut jar = GainJar::new();
    assert_eq!(jar.add_allowed_token(acct(1), acct(12)), Ok(()));
    assert_eq!(jar.add_allowed_token(acct(1), acct(11)), Ok(()));
    assert_eq!(jar.allowed_token_list(acct(1)), vec![acct(12), acct(11)]);
    assert!(jar.allowed_token_list(acct(3)).is_empty());
}

#[test]
fn second_registration_is_refused_and_keeps_the_record() {
    let mut jar = GainJar::new();
    assert_eq!(
        jar.add_employee(acct(1), acct(2), w(100), w(30), w(T0)),
        Ok(EmployeeAdded { employer: acct(1), employee: acct(2) })
    );
    assert_eq!(
        jar.add_employee(acct(1), acct(2), w(200), w(10), w(T0 + 5)),
        Err(GainJarErrors::EmployeeAlreadyExists)
    );
    let rec = jar.lookup(acct(1), acct(2)).unwrap();
    assert_eq!(rec.salary_amount, w(100));
    assert_eq!(rec.payment_interval, w(30));
    assert_eq!(rec.last_payment, w(T0));
    assert_eq!(rec.wallet, acct(2));
    assert!(rec.is_active);
}

#[test]
fn zero_interval_is_refused() {
    let mut jar = GainJar::new();
    assert_eq!(
        jar.add_employee(acct(1), acct(2), w(100), w(0), w(T0)),
        Err(GainJarErrors::InvalidPaymentInterval)
    );
    assert_eq!(jar.lookup(acct(1), acct(2)), Err(GainJarErrors::EmployeeNotFound));
}

#[test]
fn deposit_of_unlisted_token_is_refused() {
    let mut jar = GainJar::new();
    assert_eq!(
        jar.deposit(acct(1), acct(10), w(500)),
        Err(GainJarErrors::TokenNotAllowed)
    );
    assert_eq!(jar.balance(acct(1), acct(10)), w(0));
}

#[test]
fn deposits_add_up() {
    let mut jar = GainJar::new();
    assert_eq!(jar.add_allowed_token(acct(1), acct(10)), Ok(()));
    assert_eq!(
        jar.deposit(acct(1), acct(10), w(500)),
        Ok(FundsDeposited { employer: acct(1), amount: w(500) })
    );
    assert!(jar.deposit(acct(1), acct(10), w(250)).is_ok());
    assert_eq!(jar.balance(acct(1), acct(10)), w(750));
}

#[test]
fn zero_deposit_changes_nothing() {
    let mut jar = GainJar::new();
    assert_eq!(jar.add_allowed_token(acct(1), acct(10)), Ok(()));
    assert!(jar.deposit(acct(1), acct(10), w(0)).is_ok());
    assert_eq!(jar.balance(acct(1), acct(10)), w(0));
}

#[test]
fn deposit_carries_into_the_next_limb() {
    let mut jar = GainJar::new();
    assert_eq!(jar.add_allowed_token(acct(1), acct(10)), Ok(()));
    assert!(jar.deposit(acct(1), acct(10), w(u64::MAX)).is_ok());
    assert!(jar.deposit(acct(1), acct(10), w(1)).is_ok());
    assert_eq!(jar.balance(acct(1), acct(10)).limbs, [0, 1, 0, 0]);
}

#[test]
fn payment_waits_for_the_interval() {
    let mut jar = funded(1000, 100, 30);
    assert_eq!(
        jar.execute_payment(acct(1), acct(1), acct(2), acct(10), w(T0 + 29)),
        Err(GainJarErrors::PaymentNotDue)
    );
    assert_eq!(jar.balance(acct(1), acct(10)), w(1000));
    assert_eq!(jar.lookup(acct(1), acct(2)).unwrap().last_payment, w(T0));
    assert_eq!(
        jar.execute_payment(acct(1), acct(1), acct(2), acct(10), w(T0 + 30)),
        Ok(PaymentExecuted { employer: acct(1), employee: acct(2), amount: w(100) })
    );
    assert_eq!(jar.balance(acct(1), acct(10)), w(900));
    assert_eq!(jar.lookup(acct(1), acct(2)).unwrap().last_payment, w(T0 + 30));
}

#[test]
fn payment_advances_by_one_interval_only() {
    let mut jar = funded(1000, 100, 30);
    assert!(jar.execute_payment(acct(1), acct(1), acct(2), acct(10), w(T0 + 95)).is_ok());
    assert_eq!(jar.lookup(acct(1), acct(2)).unwrap().last_payment, w(T0 + 30));
    assert_eq!(jar.balance(acct(1), acct(10)), w(900));
}

#[test]
fn overdraft_is_refused() {
    let mut jar = funded(50, 100, 30);
    assert_eq!(
        jar.execute_payment(acct(1), acct(1), acct(2), acct(10), w(T0 + 30)),
        Err(GainJarErrors::InsufficientFunds)
    );
    assert_eq!(jar.balance(acct(1), acct(10)), w(50));
    assert_eq!(jar.lookup(acct(1), acct(2)).unwrap().last_payment, w(T0));
}

#[test]
fn reentrant_payment_is_not_due() {
    let mut jar = funded(1000, 100, 30);
    assert!(jar.execute_payment(acct(1), acct(1), acct(2), acct(10), w(T0 + 30)).is_ok());
    assert_eq!(
        jar.execute_payment(acct(1), acct(1), acct(2), acct(10), w(T0 + 30)),
        Err(GainJarErrors::PaymentNotDue)
    );
    assert_eq!(jar.balance(acct(1), acct(10)), w(900));
}

#[test]
fn reentrant_payment_finds_the_balance_spent() {
    let mut jar = funded(150, 100, 30);
    assert!(jar.execute_payment(acct(1), acct(1), acct(2), acct(10), w(T0 + 60)).is_ok());
    assert_eq!(
        jar.execute_payment(acct(1), acct(1), acct(2), acct(10), w(T0 + 60)),
        Err(GainJarErrors::InsufficientFunds)
    );
    assert_eq!(jar.balance(acct(1), acct(10)), w(50));
}

#[test]
fn employee_may_ask_for_payment_but_a_stranger_may_not() {
    let mut jar = funded(1000, 100, 30);
    assert_eq!(
        jar.execute_payment(acct(7), acct(1), acct(2), acct(10), w(T0 + 30)),
        Err(GainJarErrors::Unauthorized)
    );
    assert!(jar.execute_payment(acct(2), acct(1), acct(2), acct(10), w(T0 + 30)).is_ok());
    assert_eq!(jar.balance(acct(1), acct(10)), w(900));
}

#[test]
fn payment_to_unknown_or_inactive_employee_is_refused() {
    let mut jar = funded(1000, 100, 30);
    assert_eq!(
        jar.execute_payment(acct(1), acct(1), acct(3), acct(10), w(T0 + 30)),
        Err(GainJarErrors::EmployeeNotFound)
    );
    assert_eq!(jar.deactivate(acct(1), acct(3)), Err(GainJarErrors::EmployeeNotFound));
    assert_eq!(jar.deactivate(acct(1), acct(2)), Ok(()));
    let rec = jar.lookup(acct(1), acct(2)).unwrap();
    assert!(!rec.is_active);
    assert_eq!(rec.salary_amount, w(100));
    assert_eq!(
        jar.execute_payment(acct(1), acct(1), acct(2), acct(10), w(T0 + 30)),
        Err(GainJarErrors::EmployeeNotFound)
    );
    assert_eq!(jar.balance(acct(1), acct(10)), w(1000));
}

#[test]
fn payment_in_unlisted_token_is_refused() {
    let mut jar = funded(1000, 100, 30);
    assert_eq!(
        jar.execute_payment(acct(1), acct(1), acct(2), acct(11), w(T0 + 30)),
        Err(GainJarErrors::TokenNotAllowed)
    );
}

#[test]
fn payment_borrows_across_limbs() {
    let mut jar = GainJar::new();
    assert_eq!(jar.add_allowed_token(acct(1), acct(10)), Ok(()));
    assert!(jar.deposit(acct(1), acct(10), Uint256::from_u128(1u128 << 64)).is_ok());
    assert!(jar.add_employee(acct(1), acct(2), w(1), w(30), w(T0)).is_ok());
    assert!(jar.execute_payment(acct(1), acct(1), acct(2), acct(10), w(T0 + 30)).is_ok());
    assert_eq!(jar.balance(acct(1), acct(10)).limbs, [u64::MAX, 0, 0, 0]);
}

#[test]
fn interval_past_the_word_is_never_due() {
    let mut jar = GainJar::new();
    assert_eq!(jar.add_allowed_token(acct(1), acct(10)), Ok(()));
    let huge = Uint256 { limbs: [u64::MAX; 4] };
    assert!(jar.add_employee(acct(1), acct(2), w(0), huge, w(T0)).is_ok());
    assert_eq!(
        jar.execute_payment(acct(1), acct(1), acct(2), acct(10), huge),
        Err(GainJarErrors::PaymentNotDue)
    );
}

#[test]
fn employers_do_not_touch_each_other() {
    let mut jar = funded(1000, 100, 30);
    assert_eq!(jar.add_allowed_token(acct(5), acct(10)), Ok(()));
    assert!(jar.deposit(acct(5), acct(10), w(400)).is_ok());
    assert!(jar.add_employee(acct(5), acct(2), w(40), w(10), w(T0)).is_ok());
    assert!(jar.execute_payment(acct(1), acct(1), acct(2), acct(10), w(T0 + 30)).is_ok());
    assert_eq!(jar.balance(acct(5), acct(10)), w(400));
    assert_eq!(jar.lookup(acct(5), acct(2)).unwrap().last_payment, w(T0));
    assert_eq!(jar.deactivate(acct(5), acct(2)), Ok(()));
    assert!(jar.lookup(acct(1), acct(2)).unwrap().is_active);
    assert_eq!(
        jar.deposit(acct(5), acct(11), w(1)),
        Err(GainJarErrors::TokenNotAllowed)
    );
    assert_eq!(jar.allowed_token_list(acct(1)), vec![acct(10)]);
    assert_eq!(jar.balance(acct(1), acct(10)), w(900));
}

#[test]
fn words_from_integers() {
    assert_eq!(Uint256::from_u128(u128::MAX).limbs, [u64::MAX, u64::MAX, 0, 0]);
    assert_eq!(Uint256::from_u64(7).limbs, [7, 0, 0, 0]);
    assert!(Uint256::zero().is_zero());
    assert!(!Uint256 { limbs: [0, 0, 0, 1] }.is_zero());
}
