//! Keyed amount records: the model of an association list from an account
//! identity to an `i128` amount, and the per-invoice payment ledger built on
//! it. The token module reuses the same model for balances.

use vstd::prelude::*;

verus! {

/// One record at the model level: an account identity and an amount.
pub ghost struct AccountM {
    pub who: Seq<char>,
    pub amount: int,
}

/// The sum of all amounts recorded.
pub open spec fn sum_of(s: Seq<AccountM>) -> int
    decreases s.len(),
{
    if s.len() == 0 {
        0
    } else {
        sum_of(s.drop_last()) + s.last().amount
    }
}

/// Whether a record for `who` exists.
pub open spec fn has_account(s: Seq<AccountM>, who: Seq<char>) -> bool {
    exists|i: int| 0 <= i < s.len() && s[i].who == who
}

/// The index of the record for `who`; meaningful only under `has_account`
/// and `keys_unique`.
pub open spec fn idx_of(s: Seq<AccountM>, who: Seq<char>) -> int {
    choose|i: int| 0 <= i < s.len() && s[i].who == who
}

/// The amount recorded for `who`, zero where no record exists.
pub open spec fn amount_for(s: Seq<AccountM>, who: Seq<char>) -> int
    decreases s.len(),
{
    if s.len() == 0 {
        0
    } else if s.last().who == who {
        s.last().amount
    } else {
        amount_for(s.drop_last(), who)
    }
}

/// At most one record per account.
pub open spec fn keys_unique(s: Seq<AccountM>) -> bool {
    forall|i: int, j: int| 0 <= i < j < s.len() ==> s[i].who != s[j].who
}

/// No recorded amount is negative.
pub open spec fn amounts_nonneg(s: Seq<AccountM>) -> bool {
    forall|i: int| 0 <= i < s.len() ==> s[i].amount >= 0
}

/// Well-formedness of a payment ledger: keys unique, no amount negative.
pub open spec fn ledger_wf(s: Seq<AccountM>) -> bool {
    keys_unique(s) && amounts_nonneg(s)
}

/// The record for `who` set to `v`: updated in place where one exists,
/// appended otherwise.
pub open spec fn set_m(s: Seq<AccountM>, who: Seq<char>, v: int) -> Seq<AccountM> {
    if has_account(s, who) {
        s.update(idx_of(s, who), AccountM { who, amount: v })
    } else {
        s.push(AccountM { who, amount: v })
    }
}

/// `who`'s record raised by `delta`.
pub open spec fn credit_m(s: Seq<AccountM>, who: Seq<char>, delta: int) -> Seq<AccountM> {
    set_m(s, who, amount_for(s, who) + delta)
}

/// `who`'s record reset to zero; untouched where none exists.
pub open spec fn zero_m(s: Seq<AccountM>, who: Seq<char>) -> Seq<AccountM> {
    if has_account(s, who) {
        set_m(s, who, 0)
    } else {
        s
    }
}

/// Where a record for `who` exists at index `i` of a unique-keyed list,
/// `amount_for` reads it.
pub proof fn lemma_amount_at_index(s: Seq<AccountM>, who: Seq<char>, i: int)
    requires
        keys_unique(s),
        0 <= i < s.len(),
        s[i].who == who,
    ensures
        amount_for(s, who) == s[i].amount,
    decreases s.len(),
{
    if i == s.len() - 1 {
    } else {
        assert(s.last().who != who);
        assert(s.drop_last()[i] == s[i]);
        lemma_amount_at_index(s.drop_last(), who, i);
    }
}

/// Where no record for `who` exists, `amount_for` is zero.
pub proof fn lemma_amount_absent(s: Seq<AccountM>, who: Seq<char>)
    requires
        !has_account(s, who),
    ensures
        amount_for(s, who) == 0,
    decreases s.len(),
{
    if s.len() > 0 {
        assert(forall|i: int| 0 <= i < s.len() - 1 ==> s.drop_last()[i] == s[i]);
        lemma_amount_absent(s.drop_last(), who);
    }
}

/// Updating the amount at one index moves the sum by the difference.
proof fn lemma_sum_update(s: Seq<AccountM>, i: int, v: int)
    requires
        0 <= i < s.len(),
    ensures
        sum_of(s.update(i, AccountM { who: s[i].who, amount: v })) == sum_of(s) - s[i].amount + v,
    decreases s.len(),
{
    let t = s.update(i, AccountM { who: s[i].who, amount: v });
    if i == s.len() - 1 {
        assert(t.drop_last() =~= s.drop_last());
    } else {
        assert(t.drop_last() =~= s.drop_last().update(i, AccountM { who: s[i].who, amount: v }));
        lemma_sum_update(s.drop_last(), i, v);
    }
}

/// Appending a record adds its amount to the sum.
proof fn lemma_sum_push(s: Seq<AccountM>, e: AccountM)
    ensures
        sum_of(s.push(e)) == sum_of(s) + e.amount,
{
    assert(s.push(e).drop_last() =~= s);
}

/// One account's amount does not change when only another account's record
/// does.
proof fn lemma_amount_same_when_entry_differs(
    s0: Seq<AccountM>,
    s1: Seq<AccountM>,
    i: int,
    p: Seq<char>,
)
    requires
        0 <= i < s0.len(),
        s1.len() == s0.len(),
        s1[i].who == s0[i].who,
        forall|j: int| 0 <= j < s0.len() && j != i ==> s1[j] == s0[j],
        p != s0[i].who,
    ensures
        amount_for(s1, p) == amount_for(s0, p),
    decreases s0.len(),
{
    if s0.len() > 0 {
        if i == s0.len() - 1 {
            assert(s0.last().who != p && s1.last().who != p);
            assert(s1.drop_last() =~= s0.drop_last());
        } else {
            assert(s1.last() == s0.last());
            if s0.last().who != p {
                assert(forall|j: int|
                    0 <= j < s0.len() - 1 && j != i ==> s1.drop_last()[j] == s0.drop_last()[j]);
                assert(s1.drop_last()[i] == s1[i]);
                assert(s0.drop_last()[i] == s0[i]);
                lemma_amount_same_when_entry_differs(s0.drop_last(), s1.drop_last(), i, p);
            }
        }
    }
}

/// What `set_m` does, in full: the written account reads back `v`, every
/// other account is untouched, the sum moves by the difference, uniqueness
/// is kept, and the length grows only for a fresh account.
pub proof fn lemma_set_m(s: Seq<AccountM>, who: Seq<char>, v: int)
    requires
        keys_unique(s),
    ensures
        keys_unique(set_m(s, who, v)),
        amount_for(set_m(s, who, v), who) == v,
        forall|p: Seq<char>| p != who ==> amount_for(set_m(s, who, v), p) == amount_for(s, p),
        sum_of(set_m(s, who, v)) == sum_of(s) - amount_for(s, who) + v,
        has_account(set_m(s, who, v), who),
        forall|p: Seq<char>| has_account(s, p) ==> has_account(set_m(s, who, v), p),
        amounts_nonneg(s) && v >= 0 ==> amounts_nonneg(set_m(s, who, v)),
        s.len() <= set_m(s, who, v).len() <= s.len() + 1,
{
    let t = set_m(s, who, v);
    if has_account(s, who) {
        let i = idx_of(s, who);
        assert(0 <= i < s.len() && s[i].who == who);
        lemma_amount_at_index(s, who, i);
        lemma_sum_update(s, i, v);
        lemma_amount_at_index(t, who, i);
        assert forall|p: Seq<char>| p != who implies amount_for(t, p) == amount_for(s, p) by {
            lemma_amount_same_when_entry_differs(s, t, i, p);
        }
        assert forall|p: Seq<char>| has_account(s, p) implies has_account(t, p) by {
            let j = choose|j: int| 0 <= j < s.len() && s[j].who == p;
            assert(t[j].who == p);
        }
    } else {
        let e = AccountM { who, amount: v };
        assert(t =~= s.push(e));
        lemma_sum_push(s, e);
        lemma_amount_absent(s, who);
        assert(t.last() == e);
        assert(amount_for(t, who) == v);
        assert(t.drop_last() =~= s);
        assert forall|p: Seq<char>| p != who implies amount_for(t, p) == amount_for(s, p) by {
        }
        assert forall|p: Seq<char>| has_account(s, p) implies has_account(t, p) by {
            let j = choose|j: int| 0 <= j < s.len() && s[j].who == p;
            assert(t[j].who == p);
        }
        assert forall|i: int, j: int| 0 <= i < j < t.len() implies t[i].who != t[j].who by {
            if j == t.len() - 1 {
                assert(t[i].who == s[i].who);
                assert(!has_account(s, who));
                assert(s[i].who != who);
            }
        }
    }
}

/// In a unique-keyed, nonnegative list every single amount is at most the
/// whole sum.
pub proof fn lemma_amount_le_sum(s: Seq<AccountM>, who: Seq<char>)
    requires
        ledger_wf(s),
    ensures
        0 <= amount_for(s, who) <= sum_of(s),
    decreases s.len(),
{
    if s.len() == 0 {
    } else {
        assert(ledger_wf(s.drop_last()));
        lemma_amount_le_sum(s.drop_last(), who);
        if s.last().who == who {
            lemma_sum_nonneg(s.drop_last());
        }
    }
}

/// A nonnegative list's sum is never negative.
pub proof fn lemma_sum_nonneg(s: Seq<AccountM>)
    requires
        amounts_nonneg(s),
    ensures
        sum_of(s) >= 0,
    decreases s.len(),
{
    if s.len() > 0 {
        assert(amounts_nonneg(s.drop_last()));
        lemma_sum_nonneg(s.drop_last());
    }
}

/// A payment ledger: for each payer that has paid toward an invoice, the
/// cumulative amount paid in, with at most one record per payer and no
/// negative amount.
pub struct PaymentLedger {
    entries: Vec<(String, i128)>,
}

impl View for PaymentLedger {
    type V = Seq<AccountM>;

    closed spec fn view(&self) -> Seq<AccountM> {
        self.entries@.map(|i: int, e: (String, i128)| AccountM { who: e.0@, amount: e.1 as int })
    }
}

impl PaymentLedger {
    /// Well-formedness: unique payers, no negative amounts.
    pub open spec fn wf(&self) -> bool {
        ledger_wf(self@)
    }

    /// The empty ledger.
    pub fn new() -> (r: PaymentLedger)
        ensures
            r@ =~= Seq::<AccountM>::empty(),
            r.wf(),
    {
        PaymentLedger { entries: Vec::new() }
    }

    /// How many payers hold a record.
    pub fn len(&self) -> (r: usize)
        ensures
            r == self@.len(),
    {
        self.entries.len()
    }

    /// The record at one index, as plain values.
    pub fn entry_at(&self, i: usize) -> (r: (String, i128))
        requires
            i < self@.len(),
        ensures
            r.0@ == self@[i as int].who,
            r.1 == self@[i as int].amount,
    {
        let e = &self.entries[i];
        (e.0.clone(), e.1)
    }

    /// The cumulative amount `payer` has paid, zero if none.
    pub fn amount_of(&self, payer: &String) -> (r: i128)
        requires
            keys_unique(self@),
        ensures
            r == amount_for(self@, payer@),
    {
        let ghost s0 = self@;
        let n = self.entries.len();
        for i in 0..n
            invariant
                self@ == s0,
                n == s0.len(),
                keys_unique(s0),
                forall|j: int| 0 <= j < i ==> s0[j].who != payer@,
        {
            if self.entries[i].0 == *payer {
                proof {
                    lemma_amount_at_index(self@, payer@, i as int);
                }
                return self.entries[i].1;
            }
        }
        proof {
            lemma_amount_absent(self@, payer@);
        }
        0
    }

    /// Raise `payer`'s cumulative amount by `amount`, creating the record if
    /// none exists. The caller rules out overflow of the ledger's sum.
    pub fn credit(&mut self, payer: &String, amount: i128)
        requires
            old(self).wf(),
            amount > 0,
            sum_of(old(self)@) + amount <= i128::MAX,
        ensures
            final(self)@ == credit_m(old(self)@, payer@, amount as int),
            final(self).wf(),
            sum_of(final(self)@) == sum_of(old(self)@) + amount,
            amount_for(final(self)@, payer@) == amount_for(old(self)@, payer@) + amount,
            forall|p: Seq<char>|
                p != payer@ ==> amount_for(final(self)@, p) == amount_for(old(self)@, p),
    {
        let ghost s0 = self@;
        let prior = self.amount_of(payer);
        proof {
            lemma_amount_le_sum(s0, payer@);
            lemma_sum_nonneg(s0);
        }
        self.set_amount(payer, prior + amount);
        proof {
            lemma_set_m(s0, payer@, prior + amount);
        }
    }

    /// Reset `payer`'s record to zero, leaving every other record alone.
    pub fn zero_out(&mut self, payer: &String)
        requires
            old(self).wf(),
        ensures
            final(self)@ == zero_m(old(self)@, payer@),
            final(self).wf(),
            sum_of(final(self)@) == sum_of(old(self)@) - amount_for(old(self)@, payer@),
            amount_for(final(self)@, payer@) == 0,
            forall|p: Seq<char>|
                p != payer@ ==> amount_for(final(self)@, p) == amount_for(old(self)@, p),
    {
        let ghost s0 = self@;
        let n = self.entries.len();
        for i in 0..n
            invariant
                s0 == old(self)@,
                self@ == s0,
                n == s0.len(),
                ledger_wf(s0),
                forall|j: int| 0 <= j < i ==> s0[j].who != payer@,
        {
            if self.entries[i].0 == *payer {
                let key = self.entries[i].0.clone();
                self.entries.set(i, (key, 0));
                proof {
                    assert(s0[i as int].who == payer@);
                    assert(has_account(s0, payer@));
                    let j = idx_of(s0, payer@);
                    assert(0 <= j < s0.len() && s0[j].who == payer@);
                    assert(j == i as int) by {
                        if j < i as int {
                            assert(s0[j].who != s0[i as int].who);
                        }
                        if (i as int) < j {
                            assert(s0[i as int].who != s0[j].who);
                        }
                    }
                    assert(self@ =~= s0.update(i as int, AccountM { who: payer@, amount: 0 }));
                    assert(self@ == set_m(s0, payer@, 0));
                    lemma_set_m(s0, payer@, 0);
                }
                return;
            }
        }
        proof {
            assert(!has_account(s0, payer@));
            lemma_amount_absent(s0, payer@);
        }
    }

    /// Write `payer`'s record as `v`, in place or appended.
    fn set_amount(&mut self, payer: &String, v: i128)
        requires
            keys_unique(old(self)@),
        ensures
            final(self)@ == set_m(old(self)@, payer@, v as int),
    {
        let ghost s0 = self@;
        let n = self.entries.len();
        for i in 0..n
            invariant
                s0 == old(self)@,
                self@ == s0,
                n == s0.len(),
                keys_unique(s0),
                forall|j: int| 0 <= j < i ==> s0[j].who != payer@,
        {
            if self.entries[i].0 == *payer {
                let key = self.entries[i].0.clone();
                self.entries.set(i, (key, v));
                proof {
                    assert(s0[i as int].who == payer@);
                    assert(has_account(s0, payer@));
                    let j = idx_of(s0, payer@);
                    assert(0 <= j < s0.len() && s0[j].who == payer@);
                    assert(j == i as int) by {
                        if j < i as int {
                            assert(s0[j].who != s0[i as int].who);
                        }
                        if (i as int) < j {
                            assert(s0[i as int].who != s0[j].who);
                        }
                    }
                    assert(self@ =~= s0.update(i as int, AccountM { who: payer@, amount: v as int }));
                }
                return;
            }
        }
        self.entries.push((payer.clone(), v));
        proof {
            assert(!has_account(s0, payer@));
            assert(self@ =~= s0.push(AccountM { who: payer@, amount: v as int }));
        }
    }
}

} // verus!
