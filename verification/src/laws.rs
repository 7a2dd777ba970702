//! The engine's global guarantees, each proved once and for all over the
//! specification-level transitions of the escrow state machine.

use crate::engine::PaymentOutcomeM;
use crate::engine::RefundOutcomeM;
use crate::engine::create_t;
use crate::engine::expire_t;
use crate::engine::has_invoice;
use crate::engine::inv_idx;
use crate::engine::invoice_of;
use crate::engine::lemma_inv_idx;
use crate::engine::lemma_update_keeps_unique;
use crate::engine::memo_taken;
use crate::engine::pay_t;
use crate::engine::refund_t;
use crate::engine::state_wf;
use crate::error::EscrowError;
use crate::invoice::InvoiceM;
use crate::invoice::InvoiceStatus;
use vstd::prelude::*;

verus! {

/// Uniqueness of ids: once a creation with some id has been accepted, any
/// second creation reusing that id — whatever its other arguments — is
/// rejected as a duplicate and leaves the state, the first invoice
/// included, exactly as it was.
pub proof fn lemma_create_unique_id(
    s: Seq<InvoiceM>,
    id: Seq<char>,
    total1: int,
    due1: int,
    merchant1: Seq<char>,
    memo1: Option<Seq<char>>,
    now1: int,
    total2: int,
    due2: int,
    merchant2: Seq<char>,
    memo2: Option<Seq<char>>,
    now2: int,
)
    requires
        create_t(s, id, total1, due1, merchant1, memo1, now1).1 is Ok,
    ensures
        create_t(
            create_t(s, id, total1, due1, merchant1, memo1, now1).0,
            id,
            total2,
            due2,
            merchant2,
            memo2,
            now2,
        ) == (
            create_t(s, id, total1, due1, merchant1, memo1, now1).0,
            Err::<(), EscrowError>(EscrowError::DuplicateInvoice),
        ),
{
    let s1 = create_t(s, id, total1, due1, merchant1, memo1, now1).0;
    assert(s1[s1.len() - 1].id == id);
    assert(has_invoice(s1, id));
}

/// Uniqueness of memos: once a creation carrying some memo has been
/// accepted, a second creation carrying the same memo is rejected as a
/// duplicate and changes nothing, whenever its own id, total and due date
/// would otherwise have passed validation.
pub proof fn lemma_create_unique_memo(
    s: Seq<InvoiceM>,
    id1: Seq<char>,
    total1: int,
    due1: int,
    merchant1: Seq<char>,
    memo: Seq<char>,
    now1: int,
    id2: Seq<char>,
    total2: int,
    due2: int,
    merchant2: Seq<char>,
    now2: int,
)
    requires
        create_t(s, id1, total1, due1, merchant1, Some(memo), now1).1 is Ok,
        total2 > 0,
        due2 > now2,
    ensures
        create_t(
            create_t(s, id1, total1, due1, merchant1, Some(memo), now1).0,
            id2,
            total2,
            due2,
            merchant2,
            Some(memo),
            now2,
        ) == (
            create_t(s, id1, total1, due1, merchant1, Some(memo), now1).0,
            Err::<(), EscrowError>(EscrowError::DuplicateInvoice),
        ),
{
    let s1 = create_t(s, id1, total1, due1, merchant1, Some(memo), now1).0;
    assert(s1[s1.len() - 1].memo == Some(memo));
    assert(memo_taken(s1, memo));
}

/// No double release: a settled invoice is terminal. No further payment is
/// accepted against it, expiring it reports `false`, refunding against it
/// is declined, and none of the three changes any state — so the payout
/// owed on settlement can never be owed a second time.
pub proof fn lemma_no_double_release(
    s: Seq<InvoiceM>,
    id: Seq<char>,
    payer: Seq<char>,
    amount: int,
    now: int,
)
    requires
        state_wf(s),
        has_invoice(s, id),
        invoice_of(s, id).status == InvoiceStatus::Settled,
    ensures
        pay_t(s, id, payer, amount, now) == (
            s,
            Err::<PaymentOutcomeM, EscrowError>(EscrowError::AlreadySettled),
        ),
        expire_t(s, id, now) == (s, Ok::<bool, EscrowError>(false)),
        refund_t(s, id, payer, now) == (
            s,
            Ok::<RefundOutcomeM, EscrowError>((RefundOutcomeM { refunded: false, amount: 0 })),
        ),
{
}

/// The merchant payout is owed exactly once: a payment outcome carries a
/// payout only when it is the settling payment — the invoice was open
/// before and is settled after — and the payout is then exactly the
/// invoice's total.
pub proof fn lemma_release_only_on_settlement(
    s: Seq<InvoiceM>,
    id: Seq<char>,
    payer: Seq<char>,
    amount: int,
    now: int,
    o: PaymentOutcomeM,
)
    requires
        state_wf(s),
        pay_t(s, id, payer, amount, now).1 == Ok::<PaymentOutcomeM, EscrowError>(o),
        o.payout != 0,
    ensures
        o.settled,
        invoice_of(s, id).status == InvoiceStatus::Open,
        o.payout == invoice_of(s, id).total,
        invoice_of(pay_t(s, id, payer, amount, now).0, id).status == InvoiceStatus::Settled,
{
    let i = inv_idx(s, id);
    assert(0 <= i < s.len() && s[i].id == id);
    assert(s[i].wf());
    let s1 = pay_t(s, id, payer, amount, now).0;
    lemma_update_keeps_unique(s, i, s1[i]);
    lemma_inv_idx(s1, id, i);
}

/// The expiry gate for refunds: a refund is granted exactly on an invoice
/// that has been confirmed expired and whose due date lies strictly before
/// `now`. A settled invoice, a still-open invoice, or a clock at or before
/// the due date each decline the refund and change nothing.
pub proof fn lemma_expiry_gate(
    s: Seq<InvoiceM>,
    id: Seq<char>,
    payer: Seq<char>,
    now: int,
)
    requires
        state_wf(s),
        has_invoice(s, id),
    ensures
        refund_t(s, id, payer, now).1 matches Ok(o) ==> (o.refunded <==> (invoice_of(s, id).status
            == InvoiceStatus::Expired && now > invoice_of(s, id).due)),
        invoice_of(s, id).status != InvoiceStatus::Expired || now <= invoice_of(s, id).due
            ==> refund_t(s, id, payer, now) == (
            s,
            Ok::<RefundOutcomeM, EscrowError>((RefundOutcomeM { refunded: false, amount: 0 })),
        ),
{
}

/// Only the expiry transition expires: an invoice that was not expired
/// stays unexpired across creation, payment and refund, and becomes expired
/// through `expire_t` exactly when it was open and due strictly before the
/// clock value given — the call that reports `true`.
pub proof fn lemma_only_expire_expires(
    s: Seq<InvoiceM>,
    id: Seq<char>,
    id2: Seq<char>,
    payer: Seq<char>,
    total: int,
    due: int,
    merchant: Seq<char>,
    memo: Option<Seq<char>>,
    amount: int,
    now: int,
)
    requires
        state_wf(s),
        has_invoice(s, id),
        invoice_of(s, id).status != InvoiceStatus::Expired,
    ensures
        invoice_of(create_t(s, id2, total, due, merchant, memo, now).0, id).status != InvoiceStatus::Expired,
        invoice_of(pay_t(s, id2, payer, amount, now).0, id).status != InvoiceStatus::Expired,
        invoice_of(refund_t(s, id2, payer, now).0, id).status != InvoiceStatus::Expired,
        invoice_of(expire_t(s, id2, now).0, id).status == InvoiceStatus::Expired ==> (id2 == id
            && invoice_of(s, id).status == InvoiceStatus::Open && now > invoice_of(s, id).due
            && expire_t(s, id2, now).1 == Ok::<bool, EscrowError>(true)),
{
    let i = inv_idx(s, id);
    assert(0 <= i < s.len() && s[i].id == id);

    let sc = create_t(s, id2, total, due, merchant, memo, now).0;
    if create_t(s, id2, total, due, merchant, memo, now).1 is Ok {
        assert(sc[i] == s[i]);
        assert(forall|a: int, b: int| 0 <= a < b < sc.len() - 1 ==> sc[a].id != sc[b].id);
        assert(sc[sc.len() - 1].id == id2 && !has_invoice(s, id2));
        assert forall|a: int, b: int| 0 <= a < b < sc.len() implies sc[a].id != sc[b].id by {
            if b == sc.len() - 1 {
                assert(sc[a].id == s[a].id && s[a].id != id2);
            }
        }
        lemma_inv_idx(sc, id, i);
    }

    if has_invoice(s, id2) {
        let j = inv_idx(s, id2);
        assert(0 <= j < s.len() && s[j].id == id2);

        let sp = pay_t(s, id2, payer, amount, now).0;
        if sp != s {
            lemma_update_keeps_unique(s, j, sp[j]);
            lemma_inv_idx(sp, id, if id2 == id { j } else { i });
        }

        let sr = refund_t(s, id2, payer, now).0;
        if sr != s {
            lemma_update_keeps_unique(s, j, sr[j]);
            lemma_inv_idx(sr, id, if id2 == id { j } else { i });
        }

        let se = expire_t(s, id2, now).0;
        if se != s {
            lemma_update_keeps_unique(s, j, se[j]);
            lemma_inv_idx(se, id, if id2 == id { j } else { i });
        }
    }
}

/// Idempotent expiry: once an expiry call has reported `true`, every later
/// expiry call on the same invoice reports `false` and changes nothing,
/// whatever the clock then reads.
pub proof fn lemma_expire_idempotent(
    s: Seq<InvoiceM>,
    id: Seq<char>,
    now1: int,
    now2: int,
)
    requires
        state_wf(s),
        expire_t(s, id, now1).1 == Ok::<bool, EscrowError>(true),
    ensures
        expire_t(expire_t(s, id, now1).0, id, now2) == (
            expire_t(s, id, now1).0,
            Ok::<bool, EscrowError>(false),
        ),
{
    let i = inv_idx(s, id);
    assert(0 <= i < s.len() && s[i].id == id);
    let s1 = expire_t(s, id, now1).0;
    lemma_update_keeps_unique(s, i, s1[i]);
    lemma_inv_idx(s1, id, i);
    assert(invoice_of(s1, id).status == InvoiceStatus::Expired);
}

/// Overpayment correctness: a payment of the outstanding remainder plus a
/// strictly positive excess `k` settles the invoice, owes the merchant
/// exactly the invoice total, and owes the payer back exactly `k`.
pub proof fn lemma_overpayment(
    s: Seq<InvoiceM>,
    id: Seq<char>,
    payer: Seq<char>,
    k: int,
    now: int,
)
    requires
        state_wf(s),
        has_invoice(s, id),
        invoice_of(s, id).status == InvoiceStatus::Open,
        now <= invoice_of(s, id).due,
        k > 0,
        invoice_of(s, id).total + k <= i128::MAX,
    ensures
        pay_t(s, id, payer, invoice_of(s, id).total - invoice_of(s, id).collected + k, now).1
            == Ok::<PaymentOutcomeM, EscrowError>(
            (
                PaymentOutcomeM {
                    settled: true,
                    excess_refund: k,
                    payout: invoice_of(s, id).total,
                }
            ),
        ),
{
    let i = inv_idx(s, id);
    assert(0 <= i < s.len() && s[i].id == id);
    assert(s[i].wf());
}

} // verus!
