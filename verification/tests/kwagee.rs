use invoice_ledgers::kwagee::{Allocation, InvoiceStatus, Kwagee, LedgerError};

const WORKER: &str = "GBWORKERKWAGEEAAAAAAAAAAAAAAAAAAAAAAAAAAAAAAAAAAAAAAAAAA";
const CLIENT: &str = "GCCLIENTKWAGEEAAAAAAAAAAAAAAAAAAAAAAAAAAAAAAAAAAAAAAAAAA";
const OTHER: &str = "GDOTHERKWAGEEAAAAAAAAAAAAAAAAAAAAAAAAAAAAAAAAAAAAAAAAAAA";

fn s(text: &str) -> String {
    text.to_string()
}

fn share(label: &str, percent: u32) -> Allocation {
    Allocation { label: s(label), percent }
}

fn balance_of(buckets: &[(String, i128)], label: &str) -> Option<i128> {
    buckets.iter().find(|(l, _)| l == label).map(|(_, b)| *b)
}

fn total_of(buckets: &[(String, i128)]) -> i128 {
    buckets.iter().map(|(_, b)| *b).sum()
}

fn budget_split() -> Vec<Allocation> {
    vec![
        share("SSS", 10),
        share("PhilHealth", 5),
        share("PagIBIG", 5),
        share("Bills", 20),
        share("Budget", 60),
    ]
}

#[test]
fn tests_test_create_and_get_invoice() {
    let mut contract = Kwagee::new();
    let id = contract
        .create_invoice(s(WORKER), s(CLIENT), 70_000_000i128, s("Logo design - May 2026"), 1000)
        .unwrap();
    assert_eq!(id, 1);
    let invoice = contract.get_invoice(id).unwrap();
    assert_eq!(invoice.amount_usdc, 70_000_000);
    assert_eq!(invoice.status, InvoiceStatus::Pending);
}

#[test]
fn tests_test_set_allocations_and_pay_invoice() {
    let mut contract = Kwagee::new();
    contract.set_fixed_budget(s(WORKER), 100_000_000i128).unwrap();
    contract.set_allocations(s(WORKER), budget_split()).unwrap();
    let id = contract
        .create_invoice(s(WORKER), s(CLIENT), 100_000_000i128, s("Web dev project"), 1000)
        .unwrap();
    contract.pay_invoice(s(CLIENT), id, 2000).unwrap();
    let buckets = contract.get_buckets(s(WORKER));
    assert_eq!(balance_of(&buckets, "SSS").unwrap(), 10_000_000);
    assert_eq!(balance_of(&buckets, "PhilHealth").unwrap(), 5_000_000);
}

#[test]
fn tests_test_allocations_must_sum_to_100() {
    let mut contract = Kwagee::new();
    let bad_allocations = vec![share("SSS", 10), share("Savings", 50)];
    let result = contract.set_allocations(s(WORKER), bad_allocations);
    assert_eq!(result, Err(LedgerError::AllocationsMustSumTo100));
    assert_eq!(result.unwrap_err().message(), "Allocations must sum to 100%");
}

#[test]
fn test_fixed_budget_split() {
    let mut contract = Kwagee::new();
    contract.set_fixed_budget(s(WORKER), 200_000_000i128).unwrap();
    contract.set_allocations(s(WORKER), budget_split()).unwrap();
    contract
        .create_invoice(s(WORKER), s(CLIENT), 1_000_000_000i128, s("100 USDC project"), 1)
        .unwrap();
    contract.pay_invoice(s(CLIENT), 1u64, 2).unwrap();
    let buckets = contract.get_buckets(s(WORKER));
    assert_eq!(balance_of(&buckets, "Savings").unwrap(), 800_000_000);
    assert_eq!(balance_of(&buckets, "SSS").unwrap(), 20_000_000);
    assert_eq!(balance_of(&buckets, "PhilHealth").unwrap(), 10_000_000);
}

#[test]
fn tests_test_withdraw_from_bucket() {
    let mut contract = Kwagee::new();
    contract.set_fixed_budget(s(WORKER), 500_000_000i128).unwrap();
    contract.set_allocations(s(WORKER), vec![share("Savings", 100)]).unwrap();
    contract.create_invoice(s(WORKER), s(CLIENT), 500_000_000i128, s("Invoice #1"), 1).unwrap();
    contract.pay_invoice(s(CLIENT), 1u64, 2).unwrap();
    contract.withdraw_from_bucket(s(WORKER), s("Savings"), 200_000_000i128).unwrap();
    let buckets = contract.get_buckets(s(WORKER));
    assert_eq!(balance_of(&buckets, "Savings").unwrap(), 300_000_000);
}

#[test]
fn kwagee_fixed_budget_rules() {
    let mut contract = Kwagee::new();
    assert_eq!(contract.get_fixed_budget(s(WORKER)), 0);
    assert_eq!(contract.set_fixed_budget(s(WORKER), 0), Err(LedgerError::FixedBudgetNotPositive));
    assert_eq!(contract.set_fixed_budget(s(WORKER), -5), Err(LedgerError::FixedBudgetNotPositive));
    assert_eq!(contract.get_fixed_budget(s(WORKER)), 0);
    contract.set_fixed_budget(s(WORKER), 42).unwrap();
    assert_eq!(contract.get_fixed_budget(s(WORKER)), 42);
    contract.set_fixed_budget(s(WORKER), 7).unwrap();
    assert_eq!(contract.get_fixed_budget(s(WORKER)), 7);
    assert_eq!(contract.get_fixed_budget(s(OTHER)), 0);
    assert_eq!(LedgerError::FixedBudgetNotPositive.message(), "Fixed budget must be greater than 0");
}

#[test]
fn kwagee_without_budget_or_allocations_everything_is_budget() {
    let mut contract = Kwagee::new();
    let id = contract.create_invoice(s(WORKER), s(CLIENT), 900, s("a"), 1).unwrap();
    contract.pay_invoice(s(CLIENT), id, 2).unwrap();
    assert_eq!(contract.get_buckets(s(WORKER)), vec![(s("Budget"), 900)]);
}

#[test]
fn kwagee_budget_above_payment_saves_nothing() {
    let mut contract = Kwagee::new();
    contract.set_fixed_budget(s(WORKER), 1_000).unwrap();
    let id = contract.create_invoice(s(WORKER), s(CLIENT), 400, s("a"), 1).unwrap();
    contract.pay_invoice(s(CLIENT), id, 2).unwrap();
    assert_eq!(contract.get_buckets(s(WORKER)), vec![(s("Budget"), 400)]);
}

#[test]
fn kwagee_payment_above_budget_saves_the_rest() {
    let mut contract = Kwagee::new();
    contract.set_fixed_budget(s(WORKER), 300).unwrap();
    let id = contract.create_invoice(s(WORKER), s(CLIENT), 1_000, s("a"), 1).unwrap();
    contract.pay_invoice(s(CLIENT), id, 2).unwrap();
    assert_eq!(contract.get_buckets(s(WORKER)), vec![(s("Budget"), 300), (s("Savings"), 700)]);
    let invoice = contract.get_invoice(id).unwrap();
    assert_eq!(invoice.status, InvoiceStatus::Paid);
    assert_eq!(invoice.paid_at, 2);
}

#[test]
fn kwagee_client_invoices_in_creation_order() {
    let mut contract = Kwagee::new();
    contract.create_invoice(s(WORKER), s(CLIENT), 1, s("a"), 1).unwrap();
    contract.create_invoice(s(WORKER), s(OTHER), 2, s("b"), 2).unwrap();
    contract.create_invoice(s(OTHER), s(CLIENT), 3, s("c"), 3).unwrap();
    assert_eq!(contract.get_client_invoices(s(CLIENT)), vec![1, 3]);
    assert_eq!(contract.get_client_invoices(s(OTHER)), vec![2]);
    assert!(contract.get_client_invoices(s(WORKER)).is_empty());
    assert_eq!(contract.get_worker_invoices(s(WORKER)), vec![1, 2]);
    assert_eq!(contract.get_worker_invoices(s(OTHER)), vec![3]);
}

#[test]
fn kwagee_settled_invoices_are_final() {
    let mut contract = Kwagee::new();
    let paid = contract.create_invoice(s(WORKER), s(CLIENT), 10, s("a"), 1).unwrap();
    let cancelled = contract.create_invoice(s(WORKER), s(CLIENT), 20, s("b"), 1).unwrap();
    assert_eq!(contract.pay_invoice(s(OTHER), paid, 2), Err(LedgerError::NotInvoiceClient));
    contract.pay_invoice(s(CLIENT), paid, 2).unwrap();
    assert_eq!(contract.cancel_invoice(s(OTHER), cancelled), Err(LedgerError::NotYourInvoice));
    contract.cancel_invoice(s(WORKER), cancelled).unwrap();
    assert_eq!(contract.pay_invoice(s(CLIENT), paid, 3), Err(LedgerError::InvoiceNotPending));
    assert_eq!(contract.pay_invoice(s(CLIENT), cancelled, 3), Err(LedgerError::InvoiceNotPending));
    assert_eq!(contract.cancel_invoice(s(WORKER), paid), Err(LedgerError::NotCancellable));
    assert_eq!(contract.cancel_invoice(s(WORKER), 99), Err(LedgerError::InvoiceNotFound));
    assert_eq!(contract.get_buckets(s(WORKER)), vec![(s("Budget"), 10)]);
}

#[test]
fn kwagee_payment_conserves_the_amount() {
    let mut contract = Kwagee::new();
    contract.set_fixed_budget(s(WORKER), 777).unwrap();
    contract.set_allocations(s(WORKER), budget_split()).unwrap();
    for (i, amount) in [1i128, 99, 777, 778, 123_457, -50].iter().enumerate() {
        let before = total_of(&contract.get_buckets(s(WORKER)));
        let id = contract.create_invoice(s(WORKER), s(CLIENT), *amount, s("p"), i as u64).unwrap();
        contract.pay_invoice(s(CLIENT), id, 10).unwrap();
        let after = total_of(&contract.get_buckets(s(WORKER)));
        assert_eq!(after - before, *amount);
    }
}

#[test]
fn kwagee_withdraw_and_overflow() {
    let mut contract = Kwagee::new();
    let id = contract.create_invoice(s(WORKER), s(CLIENT), i128::MAX, s("a"), 1).unwrap();
    contract.pay_invoice(s(CLIENT), id, 2).unwrap();
    let id2 = contract.create_invoice(s(WORKER), s(CLIENT), 1, s("b"), 3).unwrap();
    assert_eq!(contract.pay_invoice(s(CLIENT), id2, 4), Err(LedgerError::ArithmeticOverflow));
    assert_eq!(contract.get_invoice(id2).unwrap().status, InvoiceStatus::Pending);
    assert_eq!(contract.get_buckets(s(WORKER)), vec![(s("Budget"), i128::MAX)]);
    assert_eq!(
        contract.withdraw_from_bucket(s(WORKER), s("Budget"), i128::MAX),
        Ok(())
    );
    assert_eq!(
        contract.withdraw_from_bucket(s(WORKER), s("Budget"), 1),
        Err(LedgerError::InsufficientBucketBalance)
    );
    assert_eq!(contract.get_buckets(s(WORKER)), vec![(s("Budget"), 0)]);
}

#[test]
fn kwagee_parts_round_trip_and_refusals() {
    let mut contract = Kwagee::new();
    contract.set_fixed_budget(s(WORKER), 300).unwrap();
    let id = contract.create_invoice(s(WORKER), s(CLIENT), 1_000, s("a"), 1).unwrap();
    contract.pay_invoice(s(CLIENT), id, 2).unwrap();
    let (invoices, allocations, buckets, budgets) = contract.into_parts();
    assert_eq!(budgets, vec![(s(WORKER), 300)]);
    let restored = Kwagee::from_parts(invoices, allocations, buckets, budgets).unwrap();
    assert_eq!(restored.get_fixed_budget(s(WORKER)), 300);
    assert_eq!(restored.get_buckets(s(WORKER)), vec![(s("Budget"), 300), (s("Savings"), 700)]);
    assert_eq!(restored.get_client_invoices(s(CLIENT)), vec![1]);
    assert!(Kwagee::from_parts(vec![], vec![], vec![], vec![(s(WORKER), 0)]).is_none());
    assert!(Kwagee::from_parts(vec![], vec![], vec![], vec![(s(WORKER), 1), (s(WORKER), 2)]).is_none());
    assert!(Kwagee::from_parts(vec![], vec![], vec![], vec![(s(WORKER), 1), (s(OTHER), 2)]).is_some());
}

#[test]
fn kwagee_totals_and_settings_over_a_history() {
    let mut contract = Kwagee::new();
    contract.set_allocations(s(WORKER), budget_split()).unwrap();
    contract.set_fixed_budget(s(WORKER), 250).unwrap();
    let a = contract.create_invoice(s(WORKER), s(CLIENT), 1_000, s("a"), 1).unwrap();
    let b = contract.create_invoice(s(WORKER), s(CLIENT), 333, s("b"), 2).unwrap();
    let c = contract.create_invoice(s(WORKER), s(CLIENT), 77, s("c"), 3).unwrap();
    contract.set_allocations(s(OTHER), vec![share("X", 100)]).unwrap();
    contract.set_fixed_budget(s(OTHER), 9).unwrap();
    contract.pay_invoice(s(CLIENT), a, 4).unwrap();
    let before = contract.get_buckets(s(WORKER));
    contract.pay_invoice(s(CLIENT), b, 5).unwrap();
    let after = contract.get_buckets(s(WORKER));
    // A payment lowers no bucket.
    for (label, balance) in &before {
        assert!(balance_of(&after, label).unwrap() >= *balance);
    }
    contract.cancel_invoice(s(WORKER), c).unwrap();
    contract.withdraw_from_bucket(s(WORKER), s("Savings"), 100).unwrap();
    contract.withdraw_from_bucket(s(WORKER), s("SSS"), 5).unwrap();
    assert_eq!(contract.pay_invoice(s(CLIENT), a, 6), Err(LedgerError::InvoiceNotPending));
    assert_eq!(contract.pay_invoice(s(CLIENT), c, 6), Err(LedgerError::InvoiceNotPending));
    // Paid 1000 + 333, withdrew 105.
    assert_eq!(total_of(&contract.get_buckets(s(WORKER))), 1_000 + 333 - 105);
    // Settings stay until replaced.
    assert_eq!(contract.get_allocations(s(WORKER)).len(), 5);
    assert_eq!(contract.get_fixed_budget(s(WORKER)), 250);
    assert_eq!(contract.get_worker_invoices(s(WORKER)), vec![a, b, c]);
}
