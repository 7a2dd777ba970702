//! The invoice lifecycle, exercised end to end with the in-memory token
//! standing in for the transfer service. Each test plays the hosting layer:
//! it moves funds into escrow before recording a payment and performs the
//! transfers an outcome calls for.

use paybeam::engine::Contract;
use paybeam::engine::PaymentOutcome;
use paybeam::error::EscrowError;
use paybeam::invoice::InvoiceStatus;
use paybeam::token::Token;

const NOW: u64 = 123456789;

fn s(x: &str) -> String {
    x.to_string()
}

/// Performs the transfers a recorded payment calls for, as the host would:
/// the excess back to the payer, the payout to the merchant.
fn settle_outcome(
    token: &mut Token,
    escrow: &String,
    payer: &String,
    merchant: &String,
    outcome: &PaymentOutcome,
) {
    if outcome.excess_refund > 0 {
        assert!(token.transfer(escrow, payer, outcome.excess_refund));
    }
    if outcome.payout > 0 {
        assert!(token.transfer(escrow, merchant, outcome.payout));
    }
}

#[test]
fn test_create_invoice() {
    let mut contract = Contract::new();
    let merchant = s("MERCHANT");
    let invoice_id = s("INV001");
    let memo = s("MEMO123");

    let created_id = contract
        .create_invoice(
            invoice_id.clone(),
            100,
            NOW + 3600,
            merchant.clone(),
            Some(memo.clone()),
            NOW,
        )
        .unwrap();
    assert_eq!(created_id, invoice_id);

    let invoice = contract.get_invoice(&invoice_id).unwrap();
    assert_eq!(invoice.total_amount, 100);
    assert_eq!(invoice.merchant, merchant);
    assert!(invoice.status == InvoiceStatus::Open);

    let memo_invoice = contract.get_invoice_by_memo(&memo).unwrap();
    assert_eq!(memo_invoice.total_amount, 100);
}

#[test]
fn test_duplicate_invoice() {
    let mut contract = Contract::new();
    let merchant = s("MERCHANT");
    let invoice_id = s("INV001");
    let memo = s("MEMO123");

    contract
        .create_invoice(
            invoice_id.clone(),
            100,
            NOW + 3600,
            merchant.clone(),
            Some(memo.clone()),
            NOW,
        )
        .unwrap();

    let second = contract.create_invoice(
        invoice_id.clone(),
        100,
        NOW + 3600,
        merchant.clone(),
        Some(memo.clone()),
        NOW,
    );
    assert_eq!(second, Err(EscrowError::DuplicateInvoice));

    // The original invoice is untouched.
    let invoice = contract.get_invoice(&invoice_id).unwrap();
    assert_eq!(invoice.total_amount, 100);
    assert!(invoice.status == InvoiceStatus::Open);
}

#[test]
fn test_pay_invoice() {
    let mut contract = Contract::new();
    let mut token = Token::new();
    let escrow = s("ESCROW");
    let merchant = s("MERCHANT");
    let payer = s("PAYER");
    let invoice_id = s("INV001");
    let memo = s("MEMO123");

    token.mint(&payer, 1000);

    contract
        .create_invoice(
            invoice_id.clone(),
            100,
            NOW + 3600,
            merchant.clone(),
            Some(memo.clone()),
            NOW,
        )
        .unwrap();

    // The host moves the amount into escrow first, records it after.
    assert!(token.transfer(&payer, &escrow, 100));
    let outcome = contract.pay_invoice(&invoice_id, &payer, 100, NOW).unwrap();
    assert!(outcome.settled);
    settle_outcome(&mut token, &escrow, &payer, &merchant, &outcome);

    let invoice = contract.get_invoice(&invoice_id).unwrap();
    assert!(invoice.status == InvoiceStatus::Settled);
    assert!(invoice.is_settled());
    assert_eq!(invoice.payments.amount_of(&payer), 100);
    assert!(contract.verify_payment(&invoice_id).unwrap());

    assert_eq!(token.balance(&merchant), 100);
    assert_eq!(token.balance(&payer), 900);
    assert_eq!(token.balance(&escrow), 0);
}

#[test]
fn test_expired_invoice_payment() {
    let mut contract = Contract::new();
    let merchant = s("MERCHANT");
    let payer = s("PAYER");
    let invoice_id = s("INV001");
    let memo = s("MEMO123");

    contract
        .create_invoice(
            invoice_id.clone(),
            100,
            NOW + 1,
            merchant.clone(),
            Some(memo.clone()),
            NOW,
        )
        .unwrap();

    // The clock passes the due date before any payment.
    let late = NOW + 2;
    assert_eq!(
        contract.pay_invoice(&invoice_id, &payer, 100, late),
        Err(EscrowError::InvoiceExpired)
    );
}

#[test]
fn test_refund_flow() {
    let mut contract = Contract::new();
    let mut token = Token::new();
    let escrow = s("ESCROW");
    let merchant = s("MERCHANT");
    let payer = s("PAYER");
    let invoice_id = s("INV001");
    let memo = s("MEMO123");

    token.mint(&payer, 1000);

    contract
        .create_invoice(
            invoice_id.clone(),
            100,
            NOW + 3600,
            merchant.clone(),
            Some(memo.clone()),
            NOW,
        )
        .unwrap();

    // Partial payment of 50.
    assert!(token.transfer(&payer, &escrow, 50));
    let outcome = contract.pay_invoice(&invoice_id, &payer, 50, NOW).unwrap();
    assert!(!outcome.settled);
    assert_eq!(token.balance(&payer), 950);

    // The due date passes; the invoice is expired.
    let late = NOW + 4000;
    assert!(contract.expire_invoice(&invoice_id, late).unwrap());

    // The payer reclaims the 50 held in escrow.
    let refund = contract.refund_payment(&invoice_id, &payer, late).unwrap();
    assert!(refund.refunded);
    assert_eq!(refund.amount, 50);
    assert!(token.transfer(&escrow, &payer, refund.amount));

    assert_eq!(token.balance(&payer), 1000);
    assert_eq!(token.balance(&escrow), 0);
    let invoice = contract.get_invoice(&invoice_id).unwrap();
    assert_eq!(invoice.payments.amount_of(&payer), 0);
}

#[test]
fn test_invoice_not_found() {
    let mut contract = Contract::new();
    let missing = s("NOPE");
    assert!(matches!(
        contract.get_invoice(&missing),
        Err(EscrowError::InvoiceNotFound)
    ));
    assert_eq!(
        contract.pay_invoice(&missing, &s("PAYER"), 10, NOW),
        Err(EscrowError::InvoiceNotFound)
    );
    assert_eq!(
        contract.expire_invoice(&missing, NOW),
        Err(EscrowError::InvoiceNotFound)
    );
    assert_eq!(
        contract.refund_payment(&missing, &s("PAYER"), NOW),
        Err(EscrowError::InvoiceNotFound)
    );
    assert_eq!(
        contract.verify_payment(&missing),
        Err(EscrowError::InvoiceNotFound)
    );
    assert_eq!(
        contract.invoice_is_expired(&missing, NOW),
        Err(EscrowError::InvoiceNotFound)
    );
}

#[test]
fn test_invalid_amount_and_due_date() {
    let mut contract = Contract::new();
    let merchant = s("MERCHANT");

    assert_eq!(
        contract.create_invoice(s("I0"), 0, NOW + 10, merchant.clone(), None, NOW),
        Err(EscrowError::InvalidAmount)
    );
    assert_eq!(
        contract.create_invoice(s("I0"), -5, NOW + 10, merchant.clone(), None, NOW),
        Err(EscrowError::InvalidAmount)
    );
    assert_eq!(
        contract.create_invoice(s("I0"), 10, NOW, merchant.clone(), None, NOW),
        Err(EscrowError::InvalidDueDate)
    );
    assert_eq!(
        contract.create_invoice(s("I0"), 10, NOW - 1, merchant.clone(), None, NOW),
        Err(EscrowError::InvalidDueDate)
    );

    contract
        .create_invoice(s("I0"), 10, NOW + 10, merchant.clone(), None, NOW)
        .unwrap();
    assert_eq!(
        contract.pay_invoice(&s("I0"), &s("PAYER"), 0, NOW),
        Err(EscrowError::InvalidAmount)
    );
    assert_eq!(
        contract.pay_invoice(&s("I0"), &s("PAYER"), -3, NOW),
        Err(EscrowError::InvalidAmount)
    );
}

#[test]
fn test_payment_sum_overflow_rejected() {
    let mut contract = Contract::new();
    contract
        .create_invoice(s("BIG"), i128::MAX, NOW + 10, s("MERCHANT"), None, NOW)
        .unwrap();
    contract.pay_invoice(&s("BIG"), &s("A"), 1, NOW).unwrap();
    // One more maximal payment would overflow the cumulative sum.
    assert_eq!(
        contract.pay_invoice(&s("BIG"), &s("B"), i128::MAX, NOW),
        Err(EscrowError::InvalidAmount)
    );
    // The rejected payment left the ledger as it was.
    let invoice = contract.get_invoice(&s("BIG")).unwrap();
    assert_eq!(invoice.collected, 1);
}

#[test]
fn test_memo_lookup_absent() {
    let contract = Contract::new();
    assert!(contract.get_invoice_by_memo(&s("NOMEMO")).is_none());
}

#[test]
fn test_memo_lookup_resolves_right_invoice() {
    let mut contract = Contract::new();
    contract
        .create_invoice(s("I1"), 10, NOW + 10, s("M1"), Some(s("MA")), NOW)
        .unwrap();
    // Invoices without a memo coexist freely.
    contract
        .create_invoice(s("I2"), 20, NOW + 10, s("M2"), None, NOW)
        .unwrap();
    contract
        .create_invoice(s("I3"), 30, NOW + 10, s("M3"), None, NOW)
        .unwrap();
    contract
        .create_invoice(s("I4"), 40, NOW + 10, s("M4"), Some(s("MB")), NOW)
        .unwrap();

    let by_a = contract.get_invoice_by_memo(&s("MA")).unwrap();
    assert_eq!(by_a.id, s("I1"));
    assert_eq!(by_a.total_amount, 10);
    let by_b = contract.get_invoice_by_memo(&s("MB")).unwrap();
    assert_eq!(by_b.id, s("I4"));
    assert_eq!(by_b.total_amount, 40);
}

#[test]
fn test_invoice_is_expired_states() {
    let mut contract = Contract::new();
    contract
        .create_invoice(s("I1"), 100, NOW + 10, s("MERCHANT"), None, NOW)
        .unwrap();
    // Open, not yet due.
    assert!(!contract.invoice_is_expired(&s("I1"), NOW).unwrap());
    // Open, past due: expired in fact, though not yet transitioned.
    assert!(contract.invoice_is_expired(&s("I1"), NOW + 11).unwrap());
    // Confirmed expired.
    assert!(contract.expire_invoice(&s("I1"), NOW + 11).unwrap());
    assert!(contract.invoice_is_expired(&s("I1"), NOW + 11).unwrap());

    // A settled invoice is not expired, however late the clock.
    let mut other = Contract::new();
    other
        .create_invoice(s("I2"), 10, NOW + 10, s("MERCHANT"), None, NOW)
        .unwrap();
    other.pay_invoice(&s("I2"), &s("A"), 10, NOW).unwrap();
    assert!(!other.invoice_is_expired(&s("I2"), NOW + 100).unwrap());
}

#[test]
fn test_error_symbols() {
    assert_eq!(EscrowError::DuplicateInvoice.to_symbol(), "DuplicateInvoice");
    assert_eq!(EscrowError::InvalidAmount.to_symbol(), "InvalidAmount");
    assert_eq!(EscrowError::InvalidDueDate.to_symbol(), "InvalidDueDate");
    assert_eq!(EscrowError::InvoiceNotFound.to_symbol(), "InvoiceNotFound");
    assert_eq!(EscrowError::AlreadySettled.to_symbol(), "AlreadySettled");
    assert_eq!(EscrowError::InvoiceExpired.to_symbol(), "InvoiceExpired");
    assert_eq!(EscrowError::TransferFailed.to_symbol(), "TransferFailed");
    assert_eq!(EscrowError::Unauthorized.to_symbol(), "Unauthorized");
}
