use invoice_ledgers::invoice::InvoiceRecord;
use invoice_ledgers::kita_ledger::{Allocation, InvoiceStatus, KitaLedger, LedgerError};

const WORKER: &str = "GBWORKERKITAAAAAAAAAAAAAAAAAAAAAAAAAAAAAAAAAAAAAAAAAAAAA";
const CLIENT: &str = "GCCLIENTKITAAAAAAAAAAAAAAAAAAAAAAAAAAAAAAAAAAAAAAAAAAAAA";
const OTHER: &str = "GDOTHERKITAAAAAAAAAAAAAAAAAAAAAAAAAAAAAAAAAAAAAAAAAAAAAA";

fn s(text: &str) -> String {
    text.to_string()
}

fn share(label: &str, percent: u32) -> Allocation {
    Allocation { label: s(label), percent }
}

fn balance_of(buckets: &[(String, i128)], label: &str) -> Option<i128> {
    buckets.iter().find(|(l, _)| l == label).map(|(_, b)| *b)
}

fn total_of(buckets: &[(String, i128)]) -> i128 {
    buckets.iter().map(|(_, b)| *b).sum()
}

fn standard_split() -> Vec<Allocation> {
    vec![
        share("SSS", 10),
        share("PhilHealth", 5),
        share("PagIBIG", 5),
        share("Bills", 20),
        share("Savings", 60),
    ]
}

#[test]
fn test_test_create_and_get_invoice() {
    let mut contract = KitaLedger::new();
    let id = contract
        .create_invoice(s(WORKER), s(CLIENT), 70_000_000i128, s("Logo design - May 2026"), 1000)
        .unwrap();
    assert_eq!(id, 1);
    let invoice = contract.get_invoice(id).unwrap();
    assert_eq!(invoice.amount_xlm, 70_000_000);
    assert_eq!(invoice.status, InvoiceStatus::Pending);
}

#[test]
fn test_test_set_allocations_and_pay_invoice() {
    let mut contract = KitaLedger::new();
    contract.set_allocations(s(WORKER), standard_split()).unwrap();
    let id = contract
        .create_invoice(s(WORKER), s(CLIENT), 100_000_000i128, s("Web dev project"), 1000)
        .unwrap();
    contract.pay_invoice(s(CLIENT), id, 2000).unwrap();
    let buckets = contract.get_buckets(s(WORKER));
    assert_eq!(balance_of(&buckets, "SSS").unwrap(), 10_000_000);
    assert_eq!(balance_of(&buckets, "PhilHealth").unwrap(), 5_000_000);
    assert_eq!(balance_of(&buckets, "Savings").unwrap(), 60_000_000);
}

#[test]
fn test_test_allocations_must_sum_to_100() {
    let mut contract = KitaLedger::new();
    let bad_allocations = vec![share("SSS", 10), share("Savings", 50)];
    let result = contract.set_allocations(s(WORKER), bad_allocations);
    assert!(result.is_err());
    assert_eq!(result, Err(LedgerError::AllocationsMustSumTo100));
    assert_eq!(LedgerError::AllocationsMustSumTo100.message(), "Allocations must sum to 100%");
    assert!(contract.get_allocations(s(WORKER)).is_empty());
}

#[test]
fn test_test_withdraw_from_bucket() {
    let mut contract = KitaLedger::new();
    contract.set_allocations(s(WORKER), vec![share("Savings", 100)]).unwrap();
    contract.create_invoice(s(WORKER), s(CLIENT), 50_000_000i128, s("Invoice #1"), 10).unwrap();
    contract.pay_invoice(s(CLIENT), 1u64, 20).unwrap();
    contract.withdraw_from_bucket(s(WORKER), s("Savings"), 20_000_000i128).unwrap();
    let buckets = contract.get_buckets(s(WORKER));
    assert_eq!(balance_of(&buckets, "Savings").unwrap(), 30_000_000);
}

#[test]
fn kita_ids_are_sequential_and_listed_per_worker() {
    let mut contract = KitaLedger::new();
    assert_eq!(contract.create_invoice(s(WORKER), s(CLIENT), 1, s("a"), 1), Ok(1));
    assert_eq!(contract.create_invoice(s(OTHER), s(CLIENT), 2, s("b"), 2), Ok(2));
    assert_eq!(contract.create_invoice(s(WORKER), s(OTHER), 3, s("c"), 3), Ok(3));
    assert_eq!(contract.get_worker_invoices(s(WORKER)), vec![1, 3]);
    assert_eq!(contract.get_worker_invoices(s(OTHER)), vec![2]);
    assert!(contract.get_worker_invoices(s(CLIENT)).is_empty());
    let invoice = contract.get_invoice(3).unwrap();
    assert_eq!(invoice.id, 3);
    assert_eq!(invoice.worker, WORKER);
    assert_eq!(invoice.client, OTHER);
    assert_eq!(invoice.description, "c");
    assert_eq!(invoice.created_at, 3);
    assert_eq!(invoice.paid_at, 0);
}

#[test]
fn kita_get_unknown_invoice_is_not_found() {
    let mut contract = KitaLedger::new();
    assert_eq!(contract.get_invoice(0).err(), Some(LedgerError::InvoiceNotFound));
    assert_eq!(contract.get_invoice(1).err(), Some(LedgerError::InvoiceNotFound));
    contract.create_invoice(s(WORKER), s(CLIENT), 1, s("a"), 1).unwrap();
    assert!(contract.get_invoice(1).is_ok());
    assert_eq!(contract.get_invoice(2).err(), Some(LedgerError::InvoiceNotFound));
    assert_eq!(LedgerError::InvoiceNotFound.message(), "Invoice not found");
}

#[test]
fn kita_payment_without_allocations_goes_to_wallet() {
    let mut contract = KitaLedger::new();
    let id = contract.create_invoice(s(WORKER), s(CLIENT), 12_345, s("w"), 1).unwrap();
    contract.pay_invoice(s(CLIENT), id, 99).unwrap();
    let buckets = contract.get_buckets(s(WORKER));
    assert_eq!(buckets, vec![(s("Wallet"), 12_345)]);
    let invoice = contract.get_invoice(id).unwrap();
    assert_eq!(invoice.status, InvoiceStatus::Paid);
    assert_eq!(invoice.paid_at, 99);
}

#[test]
fn kita_last_allocation_takes_the_rounding_remainder() {
    let mut contract = KitaLedger::new();
    contract
        .set_allocations(s(WORKER), vec![share("A", 33), share("B", 33), share("C", 34)])
        .unwrap();
    let id = contract.create_invoice(s(WORKER), s(CLIENT), 100, s("r"), 1).unwrap();
    contract.pay_invoice(s(CLIENT), id, 2).unwrap();
    let buckets = contract.get_buckets(s(WORKER));
    assert_eq!(balance_of(&buckets, "A"), Some(33));
    assert_eq!(balance_of(&buckets, "B"), Some(33));
    assert_eq!(balance_of(&buckets, "C"), Some(34));

    let id2 = contract.create_invoice(s(WORKER), s(CLIENT), 7, s("r2"), 3).unwrap();
    contract.pay_invoice(s(CLIENT), id2, 4).unwrap();
    let buckets = contract.get_buckets(s(WORKER));
    // 33% of 7 rounds down to 2 for A and B; C receives 7 - 4 = 3.
    assert_eq!(balance_of(&buckets, "A"), Some(35));
    assert_eq!(balance_of(&buckets, "B"), Some(35));
    assert_eq!(balance_of(&buckets, "C"), Some(37));
    assert_eq!(total_of(&buckets), 107);
}

#[test]
fn kita_negative_amount_rounds_toward_zero() {
    let mut contract = KitaLedger::new();
    contract.set_allocations(s(WORKER), vec![share("A", 50), share("B", 50)]).unwrap();
    let id = contract.create_invoice(s(WORKER), s(CLIENT), -3, s("neg"), 1).unwrap();
    contract.pay_invoice(s(CLIENT), id, 2).unwrap();
    let buckets = contract.get_buckets(s(WORKER));
    // 50% of -3 is -1.5, rounded toward zero: -1; the last bucket gets -2.
    assert_eq!(balance_of(&buckets, "A"), Some(-1));
    assert_eq!(balance_of(&buckets, "B"), Some(-2));
}

#[test]
fn kita_repeated_label_accumulates() {
    let mut contract = KitaLedger::new();
    contract
        .set_allocations(s(WORKER), vec![share("A", 40), share("B", 20), share("A", 40)])
        .unwrap();
    let id = contract.create_invoice(s(WORKER), s(CLIENT), 1000, s("dup"), 1).unwrap();
    contract.pay_invoice(s(CLIENT), id, 2).unwrap();
    let buckets = contract.get_buckets(s(WORKER));
    assert_eq!(buckets, vec![(s("A"), 800), (s("B"), 200)]);
}

#[test]
fn kita_pay_refusals() {
    let mut contract = KitaLedger::new();
    assert_eq!(contract.pay_invoice(s(CLIENT), 1, 5), Err(LedgerError::InvoiceNotFound));
    let id = contract.create_invoice(s(WORKER), s(CLIENT), 500, s("x"), 1).unwrap();
    assert_eq!(contract.pay_invoice(s(OTHER), id, 5), Err(LedgerError::NotInvoiceClient));
    assert_eq!(contract.get_invoice(id).unwrap().status, InvoiceStatus::Pending);
    assert!(contract.get_buckets(s(WORKER)).is_empty());
    contract.pay_invoice(s(CLIENT), id, 5).unwrap();
    assert_eq!(contract.pay_invoice(s(CLIENT), id, 6), Err(LedgerError::InvoiceNotPending));
    assert_eq!(contract.cancel_invoice(s(WORKER), id), Err(LedgerError::NotCancellable));
    assert_eq!(contract.get_buckets(s(WORKER)), vec![(s("Wallet"), 500)]);
    assert_eq!(LedgerError::NotInvoiceClient.message(), "Only the client can pay this invoice");
    assert_eq!(LedgerError::InvoiceNotPending.message(), "Invoice is not pending");
}

#[test]
fn kita_cancel_rules() {
    let mut contract = KitaLedger::new();
    assert_eq!(contract.cancel_invoice(s(WORKER), 1), Err(LedgerError::InvoiceNotFound));
    let id = contract.create_invoice(s(WORKER), s(CLIENT), 500, s("x"), 1).unwrap();
    assert_eq!(contract.cancel_invoice(s(CLIENT), id), Err(LedgerError::NotYourInvoice));
    contract.cancel_invoice(s(WORKER), id).unwrap();
    assert_eq!(contract.get_invoice(id).unwrap().status, InvoiceStatus::Cancelled);
    assert_eq!(contract.pay_invoice(s(CLIENT), id, 2), Err(LedgerError::InvoiceNotPending));
    assert_eq!(contract.cancel_invoice(s(WORKER), id), Err(LedgerError::NotCancellable));
    assert!(contract.get_buckets(s(WORKER)).is_empty());
    assert_eq!(LedgerError::NotYourInvoice.message(), "Not your invoice");
    assert_eq!(LedgerError::NotCancellable.message(), "Only pending invoices can be cancelled");
}

#[test]
fn kita_withdraw_rules() {
    let mut contract = KitaLedger::new();
    assert_eq!(
        contract.withdraw_from_bucket(s(WORKER), s("Savings"), 1),
        Err(LedgerError::InsufficientBucketBalance)
    );
    let id = contract.create_invoice(s(WORKER), s(CLIENT), 100, s("x"), 1).unwrap();
    contract.pay_invoice(s(CLIENT), id, 2).unwrap();
    assert_eq!(
        contract.withdraw_from_bucket(s(WORKER), s("Wallet"), 101),
        Err(LedgerError::InsufficientBucketBalance)
    );
    contract.withdraw_from_bucket(s(WORKER), s("Wallet"), 100).unwrap();
    assert_eq!(contract.get_buckets(s(WORKER)), vec![(s("Wallet"), 0)]);
    // Withdrawing zero from a missing bucket creates it with balance 0.
    contract.withdraw_from_bucket(s(WORKER), s("Other"), 0).unwrap();
    assert_eq!(contract.get_buckets(s(WORKER)), vec![(s("Other"), 0), (s("Wallet"), 0)]);
    assert_eq!(LedgerError::InsufficientBucketBalance.message(), "Insufficient bucket balance");
}

#[test]
fn kita_overflow_is_refused_and_changes_nothing() {
    let mut contract = KitaLedger::new();
    contract.set_allocations(s(WORKER), vec![share("A", 50), share("B", 50)]).unwrap();
    let id = contract.create_invoice(s(WORKER), s(CLIENT), i128::MAX, s("big"), 1).unwrap();
    assert_eq!(contract.pay_invoice(s(CLIENT), id, 2), Err(LedgerError::ArithmeticOverflow));
    assert_eq!(contract.get_invoice(id).unwrap().status, InvoiceStatus::Pending);
    assert!(contract.get_buckets(s(WORKER)).is_empty());
    assert_eq!(
        contract.withdraw_from_bucket(s(WORKER), s("A"), i128::MIN),
        Err(LedgerError::ArithmeticOverflow)
    );
    assert_eq!(LedgerError::ArithmeticOverflow.message(), "arithmetic overflow");
}

#[test]
fn kita_allocations_round_trip() {
    let mut contract = KitaLedger::new();
    contract.set_allocations(s(WORKER), standard_split()).unwrap();
    let got = contract.get_allocations(s(WORKER));
    assert_eq!(got.len(), 5);
    assert_eq!(got[0].label, "SSS");
    assert_eq!(got[4].percent, 60);
    contract.set_allocations(s(WORKER), vec![share("All", 100)]).unwrap();
    let got = contract.get_allocations(s(WORKER));
    assert_eq!(got.len(), 1);
    assert_eq!(got[0].label, "All");
    assert!(contract.get_allocations(s(OTHER)).is_empty());
    assert_eq!(contract.set_allocations(s(OTHER), vec![]), Err(LedgerError::AllocationsMustSumTo100));
    assert_eq!(
        contract.set_allocations(s(OTHER), vec![share("A", u32::MAX), share("B", 101)]),
        Err(LedgerError::AllocationsMustSumTo100)
    );
}

#[test]
fn kita_payment_conserves_the_amount() {
    let mut contract = KitaLedger::new();
    contract.set_allocations(s(WORKER), standard_split()).unwrap();
    for (i, amount) in [1i128, 99, 101, 123_457, 999_999_999].iter().enumerate() {
        let before = total_of(&contract.get_buckets(s(WORKER)));
        let id = contract.create_invoice(s(WORKER), s(CLIENT), *amount, s("p"), i as u64).unwrap();
        contract.pay_invoice(s(CLIENT), id, 10).unwrap();
        let after = total_of(&contract.get_buckets(s(WORKER)));
        assert_eq!(after - before, *amount);
    }
    assert!(contract.get_buckets(s(OTHER)).is_empty());
}

fn record(id: u64, worker: &str, client: &str, amount: i128, status: InvoiceStatus, paid_at: u64) -> InvoiceRecord {
    InvoiceRecord {
        id,
        worker: s(worker),
        client: s(client),
        amount,
        description: s("stored"),
        status,
        created_at: 1,
        paid_at,
    }
}

#[test]
fn kita_parts_round_trip() {
    let mut contract = KitaLedger::new();
    contract.set_allocations(s(WORKER), standard_split()).unwrap();
    let id = contract.create_invoice(s(WORKER), s(CLIENT), 1_000, s("p"), 5).unwrap();
    contract.pay_invoice(s(CLIENT), id, 6).unwrap();
    contract.create_invoice(s(OTHER), s(CLIENT), 7, s("q"), 8).unwrap();
    let buckets_before = contract.get_buckets(s(WORKER));
    let (invoices, allocations, buckets) = contract.into_parts();
    assert_eq!(invoices.len(), 2);
    let restored = KitaLedger::from_parts(invoices, allocations, buckets).unwrap();
    assert_eq!(restored.get_buckets(s(WORKER)), buckets_before);
    assert_eq!(restored.get_worker_invoices(s(OTHER)), vec![2]);
    assert_eq!(restored.get_invoice(1).unwrap().status, InvoiceStatus::Paid);
    assert_eq!(restored.get_invoice(1).unwrap().paid_at, 6);
    assert_eq!(restored.get_allocations(s(WORKER)).len(), 5);
}

#[test]
fn kita_inconsistent_parts_are_refused() {
    let ok = vec![record(1, WORKER, CLIENT, 5, InvoiceStatus::Pending, 0)];
    assert!(KitaLedger::from_parts(ok, vec![], vec![]).is_some());
    let misnumbered = vec![record(2, WORKER, CLIENT, 5, InvoiceStatus::Pending, 0)];
    assert!(KitaLedger::from_parts(misnumbered, vec![], vec![]).is_none());
    let unpaid_with_time = vec![record(1, WORKER, CLIENT, 5, InvoiceStatus::Cancelled, 9)];
    assert!(KitaLedger::from_parts(unpaid_with_time, vec![], vec![]).is_none());
    let paid_with_time = vec![record(1, WORKER, CLIENT, 5, InvoiceStatus::Paid, 9)];
    assert!(KitaLedger::from_parts(paid_with_time, vec![], vec![]).is_some());
    let bad_sum = vec![(s(WORKER), vec![share("A", 99)])];
    assert!(KitaLedger::from_parts(vec![], bad_sum, vec![]).is_none());
    let twice = vec![(s(WORKER), vec![share("A", 100)]), (s(WORKER), vec![share("B", 100)])];
    assert!(KitaLedger::from_parts(vec![], twice, vec![]).is_none());
    let repeated_label = vec![(s(WORKER), vec![(s("A"), 1i128), (s("A"), 2i128)])];
    assert!(KitaLedger::from_parts(vec![], vec![], repeated_label).is_none());
    let fine = vec![(s(WORKER), vec![(s("A"), 1i128), (s("B"), 2i128)])];
    let restored = KitaLedger::from_parts(vec![], vec![], fine).unwrap();
    assert_eq!(balance_of(&restored.get_buckets(s(WORKER)), "B"), Some(2));
}

#[test]
fn kita_buckets_are_kept_in_label_order() {
    let mut contract = KitaLedger::new();
    contract
        .set_allocations(s(WORKER), vec![share("b", 25), share("Ba", 25), share("B", 25), share("Zeta", 25)])
        .unwrap();
    let id = contract.create_invoice(s(WORKER), s(CLIENT), 400, s("o"), 1).unwrap();
    contract.pay_invoice(s(CLIENT), id, 2).unwrap();
    // Byte order: a shorter prefix first, upper case before lower case.
    assert_eq!(
        contract.get_buckets(s(WORKER)),
        vec![(s("B"), 100), (s("Ba"), 100), (s("Zeta"), 100), (s("b"), 100)]
    );
    contract.withdraw_from_bucket(s(WORKER), s("A"), 0).unwrap();
    let labels: Vec<String> = contract.get_buckets(s(WORKER)).into_iter().map(|(l, _)| l).collect();
    assert_eq!(labels, vec![s("A"), s("B"), s("Ba"), s("Zeta"), s("b")]);
    let unsorted = vec![(s(WORKER), vec![(s("B"), 1i128), (s("A"), 2i128)])];
    assert!(KitaLedger::from_parts(vec![], vec![], unsorted).is_none());
}
