//! Concrete instances of the engine's guarantees: uniqueness, the sum
//! invariant, overpayment correction, single release, the expiry gate, and
//! idempotent expiry, including the two full scenarios the design calls out.

use paybeam::engine::Contract;
use paybeam::error::EscrowError;
use paybeam::invoice::InvoiceStatus;
use paybeam::token::Token;

const NOW: u64 = 1000;

fn s(x: &str) -> String {
    x.to_string()
}

/// A second creation reusing an id or a memo fails and leaves the first
/// invoice unchanged.
#[test]
fn uniqueness_of_id_and_memo() {
    let mut contract = Contract::new();
    contract
        .create_invoice(s("ID1"), 75, NOW + 60, s("M1"), Some(s("MEMO1")), NOW)
        .unwrap();

    // Same id, different everything else.
    assert_eq!(
        contract.create_invoice(s("ID1"), 200, NOW + 999, s("M2"), None, NOW),
        Err(EscrowError::DuplicateInvoice)
    );
    // Fresh id, same memo.
    assert_eq!(
        contract.create_invoice(s("ID2"), 200, NOW + 999, s("M2"), Some(s("MEMO1")), NOW),
        Err(EscrowError::DuplicateInvoice)
    );

    let original = contract.get_invoice(&s("ID1")).unwrap();
    assert_eq!(original.total_amount, 75);
    assert_eq!(original.merchant, s("M1"));
    assert!(original.status == InvoiceStatus::Open);
}

/// After each accepted payment the ledger sum grows by exactly the amount,
/// and the invoice is settled exactly when the sum has reached the total.
#[test]
fn sum_invariant_across_payments() {
    let mut contract = Contract::new();
    contract
        .create_invoice(s("SUM"), 100, NOW + 60, s("M"), None, NOW)
        .unwrap();

    let mut expected: i128 = 0;
    for (payer, amount) in [("A", 30), ("B", 20), ("A", 25), ("C", 10)] {
        let outcome = contract
            .pay_invoice(&s("SUM"), &s(payer), amount, NOW)
            .unwrap();
        expected += amount;
        let invoice = contract.get_invoice(&s("SUM")).unwrap();
        assert_eq!(invoice.collected, expected);
        assert_eq!(outcome.settled, expected >= 100);
        assert!(invoice.status == if expected >= 100 {
            InvoiceStatus::Settled
        } else {
            InvoiceStatus::Open
        });
    }
    // 85 collected so far; the settling payment closes the invoice.
    let outcome = contract.pay_invoice(&s("SUM"), &s("B"), 15, NOW).unwrap();
    assert!(outcome.settled);
    let invoice = contract.get_invoice(&s("SUM")).unwrap();
    assert_eq!(invoice.collected, 100);
    assert_eq!(invoice.payments.amount_of(&s("A")), 55);
    assert_eq!(invoice.payments.amount_of(&s("B")), 35);
    assert_eq!(invoice.payments.amount_of(&s("C")), 10);

    // Enumerating the ledger reads the same records.
    assert_eq!(invoice.payments.len(), 3);
    let mut enumerated: i128 = 0;
    for i in 0..invoice.payments.len() {
        enumerated += invoice.payments.entry_at(i).1;
    }
    assert_eq!(enumerated, 100);
}

/// Paying total + k in the settling payment owes the merchant exactly the
/// total and the payer a refund of exactly k.
#[test]
fn overpayment_refunds_exact_excess() {
    let mut contract = Contract::new();
    contract
        .create_invoice(s("OVER"), 100, NOW + 60, s("M"), None, NOW)
        .unwrap();
    contract.pay_invoice(&s("OVER"), &s("A"), 40, NOW).unwrap();

    // 60 outstanding; B pays 77, an excess of 17.
    let outcome = contract.pay_invoice(&s("OVER"), &s("B"), 77, NOW).unwrap();
    assert!(outcome.settled);
    assert_eq!(outcome.excess_refund, 17);
    assert_eq!(outcome.payout, 100);
}

/// The payout fires exactly once: after the settling payment, further
/// payments, expiry and refunds are all refused or inert.
#[test]
fn no_double_release() {
    let mut contract = Contract::new();
    contract
        .create_invoice(s("ONCE"), 50, NOW + 60, s("M"), None, NOW)
        .unwrap();
    let outcome = contract.pay_invoice(&s("ONCE"), &s("A"), 50, NOW).unwrap();
    assert!(outcome.settled);
    assert_eq!(outcome.payout, 50);

    assert_eq!(
        contract.pay_invoice(&s("ONCE"), &s("B"), 1, NOW),
        Err(EscrowError::AlreadySettled)
    );
    assert!(!contract.expire_invoice(&s("ONCE"), NOW + 999).unwrap());
    let refund = contract
        .refund_payment(&s("ONCE"), &s("A"), NOW + 999)
        .unwrap();
    assert!(!refund.refunded);
    assert_eq!(refund.amount, 0);
    assert!(contract.get_invoice(&s("ONCE")).unwrap().status == InvoiceStatus::Settled);
}

/// A refund is declined while the clock is at or before the due date or the
/// invoice is settled, and granted only once expiry has been confirmed.
#[test]
fn expiry_gate_on_refunds() {
    let mut contract = Contract::new();
    contract
        .create_invoice(s("GATE"), 100, NOW + 60, s("M"), None, NOW)
        .unwrap();
    contract.pay_invoice(&s("GATE"), &s("A"), 30, NOW).unwrap();

    // Not yet due: declined.
    assert!(!contract.refund_payment(&s("GATE"), &s("A"), NOW + 60).unwrap().refunded);
    // Past due but not yet confirmed expired: still declined.
    assert!(!contract.refund_payment(&s("GATE"), &s("A"), NOW + 61).unwrap().refunded);
    // Confirm expiry; the refund is granted with the recorded amount.
    assert!(contract.expire_invoice(&s("GATE"), NOW + 61).unwrap());
    let refund = contract.refund_payment(&s("GATE"), &s("A"), NOW + 61).unwrap();
    assert!(refund.refunded);
    assert_eq!(refund.amount, 30);

    // A settled invoice declines refunds whatever the clock says.
    let mut other = Contract::new();
    other
        .create_invoice(s("DONE"), 10, NOW + 5, s("M"), None, NOW)
        .unwrap();
    other.pay_invoice(&s("DONE"), &s("A"), 10, NOW).unwrap();
    assert!(!other.refund_payment(&s("DONE"), &s("A"), NOW + 999).unwrap().refunded);
}

/// Expiring the same invoice twice reports true once and false thereafter.
#[test]
fn idempotent_expiry() {
    let mut contract = Contract::new();
    contract
        .create_invoice(s("EXP"), 100, NOW + 1, s("M"), None, NOW)
        .unwrap();
    assert!(!contract.expire_invoice(&s("EXP"), NOW + 1).unwrap());
    assert!(contract.expire_invoice(&s("EXP"), NOW + 2).unwrap());
    assert!(!contract.expire_invoice(&s("EXP"), NOW + 2).unwrap());
    assert!(!contract.expire_invoice(&s("EXP"), NOW + 999).unwrap());
}

/// The full settlement scenario: 60 from A, 50 from B on a total of 100 —
/// B is refunded 10, the merchant receives exactly 100, and the invoice
/// accepts nothing further.
#[test]
fn scenario_settlement_with_overpayment() {
    let mut contract = Contract::new();
    let mut token = Token::new();
    let escrow = s("ESCROW");

    token.mint(&s("A"), 500);
    token.mint(&s("B"), 500);

    contract
        .create_invoice(s("INV1"), 100, NOW + 3600, s("M"), None, NOW)
        .unwrap();

    assert!(token.transfer(&s("A"), &escrow, 60));
    let first = contract.pay_invoice(&s("INV1"), &s("A"), 60, NOW).unwrap();
    assert!(!first.settled);
    let invoice = contract.get_invoice(&s("INV1")).unwrap();
    assert_eq!(invoice.payments.amount_of(&s("A")), 60);

    assert!(token.transfer(&s("B"), &escrow, 50));
    let second = contract.pay_invoice(&s("INV1"), &s("B"), 50, NOW).unwrap();
    assert!(second.settled);
    assert_eq!(second.excess_refund, 10);
    assert_eq!(second.payout, 100);
    assert!(token.transfer(&escrow, &s("B"), second.excess_refund));
    assert!(token.transfer(&escrow, &s("M"), second.payout));

    assert_eq!(token.balance(&s("M")), 100);
    assert_eq!(token.balance(&s("A")), 440);
    assert_eq!(token.balance(&s("B")), 460);
    assert_eq!(token.balance(&escrow), 0);

    assert_eq!(
        contract.pay_invoice(&s("INV1"), &s("A"), 1, NOW),
        Err(EscrowError::AlreadySettled)
    );
}

/// The full expiry scenario: a partial payment of 60, the due date passes,
/// expiry succeeds, the payer reclaims 60, and a second refund is granted
/// but moves nothing.
#[test]
fn scenario_expiry_and_refund() {
    let mut contract = Contract::new();
    let mut token = Token::new();
    let escrow = s("ESCROW");

    token.mint(&s("A"), 100);

    contract
        .create_invoice(s("INV1"), 100, NOW + 1, s("M"), None, NOW)
        .unwrap();

    assert!(token.transfer(&s("A"), &escrow, 60));
    contract.pay_invoice(&s("INV1"), &s("A"), 60, NOW).unwrap();

    let late = NOW + 2;
    assert!(contract.expire_invoice(&s("INV1"), late).unwrap());

    let refund = contract.refund_payment(&s("INV1"), &s("A"), late).unwrap();
    assert!(refund.refunded);
    assert_eq!(refund.amount, 60);
    assert!(token.transfer(&escrow, &s("A"), refund.amount));
    assert_eq!(token.balance(&s("A")), 100);
    assert_eq!(
        contract
            .get_invoice(&s("INV1"))
            .unwrap()
            .payments
            .amount_of(&s("A")),
        0
    );

    let again = contract.refund_payment(&s("INV1"), &s("A"), late).unwrap();
    assert!(again.refunded);
    assert_eq!(again.amount, 0);
}
