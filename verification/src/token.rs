//! A verified in-memory token: one balance per account identity. It stands
//! in for the external transfer service, so that escrow scenarios can be run
//! and checked end to end. A transfer is all-or-nothing: it either moves the
//! amount or reports failure and leaves every balance as it was.

use crate::ledger::AccountM;
use crate::ledger::amount_for;
use crate::ledger::has_account;
use crate::ledger::idx_of;
use crate::ledger::keys_unique;
use crate::ledger::lemma_amount_absent;
use crate::ledger::lemma_amount_at_index;
use crate::ledger::lemma_set_m;
use crate::ledger::set_m;
use vstd::prelude::*;

verus! {

/// Whether moving `amount` from `from` to `to` stays within `i128` bounds.
/// The debit is applied first, so a self-transfer must keep the intermediate
/// debited balance in bounds too.
pub open spec fn transfer_ok(s: Seq<AccountM>, from: Seq<char>, to: Seq<char>, amount: int) -> bool {
    let bf = amount_for(s, from) - amount;
    let bt = if from == to {
        bf
    } else {
        amount_for(s, to)
    };
    &&& i128::MIN <= bf <= i128::MAX
    &&& i128::MIN <= bt + amount <= i128::MAX
}

/// The balances after a successful transfer: the debited record written
/// first, then the credited one.
pub open spec fn transfer_m(s: Seq<AccountM>, from: Seq<char>, to: Seq<char>, amount: int) -> Seq<
    AccountM,
> {
    let debited = set_m(s, from, amount_for(s, from) - amount);
    set_m(debited, to, amount_for(debited, to) + amount)
}

/// A token ledger: every account's balance, with at most one record per
/// account. Balances may be negative, as the engine never relies on a floor.
pub struct Token {
    balances: Vec<(String, i128)>,
}

impl View for Token {
    type V = Seq<AccountM>;

    closed spec fn view(&self) -> Seq<AccountM> {
        self.balances@.map(|i: int, e: (String, i128)| AccountM { who: e.0@, amount: e.1 as int })
    }
}

impl Token {
    /// Well-formedness: at most one record per account.
    pub open spec fn wf(&self) -> bool {
        keys_unique(self@)
    }

    /// A token with no balances.
    pub fn new() -> (r: Token)
        ensures
            r@ =~= Seq::<AccountM>::empty(),
            r.wf(),
    {
        Token { balances: Vec::new() }
    }

    /// Write `to`'s balance as exactly `amount`.
    pub fn mint(&mut self, to: &String, amount: i128)
        requires
            old(self).wf(),
        ensures
            final(self).wf(),
            final(self)@ == set_m(old(self)@, to@, amount as int),
            amount_for(final(self)@, to@) == amount,
            forall|p: Seq<char>|
                p != to@ ==> amount_for(final(self)@, p) == amount_for(old(self)@, p),
    {
        let ghost s0 = self@;
        self.set_balance(to, amount);
        proof {
            lemma_set_m(s0, to@, amount as int);
        }
    }

    /// The balance of `id`, zero if no record exists.
    pub fn balance(&self, id: &String) -> (r: i128)
        requires
            self.wf(),
        ensures
            r == amount_for(self@, id@),
    {
        let ghost s0 = self@;
        let n = self.balances.len();
        for i in 0..n
            invariant
                self@ == s0,
                n == s0.len(),
                keys_unique(s0),
                forall|j: int| 0 <= j < i ==> s0[j].who != id@,
        {
            if self.balances[i].0 == *id {
                proof {
                    assert(s0[i as int].who == id@);
                    lemma_amount_at_index(s0, id@, i as int);
                }
                return self.balances[i].1;
            }
        }
        proof {
            assert(!has_account(s0, id@));
            lemma_amount_absent(s0, id@);
        }
        0
    }

    /// Move `amount` from `from` to `to`. Returns whether the transfer was
    /// performed: it fails, moving nothing, exactly when a balance would
    /// leave the `i128` range.
    pub fn transfer(&mut self, from: &String, to: &String, amount: i128) -> (r: bool)
        requires
            old(self).wf(),
        ensures
            final(self).wf(),
            r == transfer_ok(old(self)@, from@, to@, amount as int),
            !r ==> final(self)@ == old(self)@,
            r ==> final(self)@ == transfer_m(old(self)@, from@, to@, amount as int),
            r && from@ != to@ ==> {
                &&& amount_for(final(self)@, from@) == amount_for(old(self)@, from@) - amount
                &&& amount_for(final(self)@, to@) == amount_for(old(self)@, to@) + amount
            },
            r && from@ == to@ ==> amount_for(final(self)@, from@) == amount_for(old(self)@, from@),
            forall|p: Seq<char>|
                p != from@ && p != to@ ==> amount_for(final(self)@, p) == amount_for(old(self)@, p),
    {
        let ghost s0 = self@;
        let bf = self.balance(from);
        if sub_overflows(bf, amount) {
            return false;
        }
        let debited = bf - amount;
        let bt = if *from == *to {
            debited
        } else {
            self.balance(to)
        };
        if add_overflows(bt, amount) {
            return false;
        }
        self.set_balance(from, debited);
        proof {
            lemma_set_m(s0, from@, debited as int);
        }
        let ghost s1 = self@;
        self.set_balance(to, bt + amount);
        proof {
            lemma_set_m(s1, to@, bt + amount);
            assert(amount_for(s1, to@) == bt as int);
        }
        true
    }

    /// Write `who`'s balance record as `v`, in place or appended.
    fn set_balance(&mut self, who: &String, v: i128)
        requires
            keys_unique(old(self)@),
        ensures
            final(self)@ == set_m(old(self)@, who@, v as int),
            final(self).wf(),
    {
        let ghost s0 = self@;
        let n = self.balances.len();
        for i in 0..n
            invariant
                s0 == old(self)@,
                self@ == s0,
                n == s0.len(),
                keys_unique(s0),
                forall|j: int| 0 <= j < i ==> s0[j].who != who@,
        {
            if self.balances[i].0 == *who {
                let key = self.balances[i].0.clone();
                self.balances.set(i, (key, v));
                proof {
                    assert(s0[i as int].who == who@);
                    assert(has_account(s0, who@));
                    let j = idx_of(s0, who@);
                    assert(0 <= j < s0.len() && s0[j].who == who@);
                    assert(j == i as int) by {
                        if j < i as int {
                            assert(s0[j].who != s0[i as int].who);
                        }
                        if (i as int) < j {
                            assert(s0[i as int].who != s0[j].who);
                        }
                    }
                    assert(self@ =~= s0.update(i as int, AccountM { who: who@, amount: v as int }));
                    lemma_set_m(s0, who@, v as int);
                }
                return;
            }
        }
        self.balances.push((who.clone(), v));
        proof {
            assert(!has_account(s0, who@));
            assert(self@ =~= s0.push(AccountM { who: who@, amount: v as int }));
            lemma_set_m(s0, who@, v as int);
        }
    }
}

/// Whether `a - b` leaves the `i128` range.
fn sub_overflows(a: i128, b: i128) -> (r: bool)
    ensures
        r == !(i128::MIN <= a - b <= i128::MAX),
{
    if b >= 0 {
        a < i128::MIN + b
    } else {
        a > i128::MAX + b
    }
}

/// Whether `a + b` leaves the `i128` range.
fn add_overflows(a: i128, b: i128) -> (r: bool)
    ensures
        r == !(i128::MIN <= a + b <= i128::MAX),
{
    if b >= 0 {
        a > i128::MAX - b
    } else {
        a < i128::MIN - b
    }
}

} // verus!
