//! A model of the external spendable-balance ledger that the treasury
//! consults: plain per-address balances, debited when an account is seeded
//! or topped up.

use crate::types::BankError;
use vstd::prelude::*;

verus! {

/// The balance stored for `who`, or 0 when no entry exists.
pub open spec fn spec_balance_of(balances: Seq<(u64, u64)>, who: u64) -> int
    decreases balances.len(),
{
    if balances.len() == 0 {
        0
    } else if balances.last().0 == who {
        balances.last().1 as int
    } else {
        spec_balance_of(balances.drop_last(), who)
    }
}

/// No two entries carry the same address.
pub open spec fn unique_addresses(balances: Seq<(u64, u64)>) -> bool {
    forall|i: int, j: int|
        0 <= i < j < balances.len() ==> (#[trigger] balances[i]).0 != (#[trigger] balances[j]).0
}

/// The external spendable-balance ledger, one entry per address.
pub struct ExternalBalances {
    balances: Vec<(u64, u64)>,
}

impl View for ExternalBalances {
    type V = Seq<(u64, u64)>;

    closed spec fn view(&self) -> Seq<(u64, u64)> {
        self.balances@
    }
}

/// With unique addresses, the entry at index `i` decides the balance of its
/// address.
proof fn lemma_balance_at_index(balances: Seq<(u64, u64)>, i: int)
    requires
        unique_addresses(balances),
        0 <= i < balances.len(),
    ensures
        spec_balance_of(balances, balances[i].0) == balances[i].1,
    decreases balances.len(),
{
    if i == balances.len() - 1 {
    } else {
        assert(balances.last().0 != balances[i].0);
        assert(balances.drop_last()[i] == balances[i]);
        lemma_balance_at_index(balances.drop_last(), i);
    }
}

/// An address on no entry has balance 0.
proof fn lemma_balance_absent(balances: Seq<(u64, u64)>, who: u64)
    requires
        forall|i: int| 0 <= i < balances.len() ==> (#[trigger] balances[i]).0 != who,
    ensures
        spec_balance_of(balances, who) == 0,
    decreases balances.len(),
{
    if balances.len() > 0 {
        lemma_balance_absent(balances.drop_last(), who);
    }
}

/// Replacing the value of the entry at index `i` moves that address's
/// balance to the new value and no other address's balance.
proof fn lemma_balance_update(balances: Seq<(u64, u64)>, i: int, value: u64)
    requires
        unique_addresses(balances),
        0 <= i < balances.len(),
    ensures
        spec_balance_of(balances.update(i, (balances[i].0, value)), balances[i].0) == value,
        forall|other: u64|
            other != balances[i].0 ==> #[trigger] spec_balance_of(
                balances.update(i, (balances[i].0, value)),
                other,
            ) == spec_balance_of(balances, other),
        unique_addresses(balances.update(i, (balances[i].0, value))),
    decreases balances.len(),
{
    let updated = balances.update(i, (balances[i].0, value));
    assert(unique_addresses(updated)) by {
        assert(forall|k: int|
            0 <= k < updated.len() ==> (#[trigger] updated[k]).0 == balances[k].0);
    }
    if i == balances.len() - 1 {
        assert(updated.drop_last() =~= balances.drop_last());
        assert(updated.last() == (balances[i].0, value));
    } else {
        assert(updated.drop_last() =~= balances.drop_last().update(i, (balances[i].0, value)));
        assert(balances.drop_last()[i] == balances[i]);
        lemma_balance_update(balances.drop_last(), i, value);
        assert(updated.last() == balances.last());
        assert(balances.last().0 != balances[i].0);
        assert(spec_balance_of(updated, balances[i].0) == value);
        assert forall|other: u64|
            other != balances[i].0 implies #[trigger] spec_balance_of(updated, other)
            == spec_balance_of(balances, other) by {
            if balances.last().0 != other {
                assert(spec_balance_of(updated, other) == spec_balance_of(
                    updated.drop_last(),
                    other,
                ));
                assert(spec_balance_of(balances, other) == spec_balance_of(
                    balances.drop_last(),
                    other,
                ));
            }
        }
    }
}

/// Appending an entry for a fresh address gives it that balance and leaves
/// every other address's balance unchanged.
proof fn lemma_balance_push(balances: Seq<(u64, u64)>, who: u64, value: u64)
    ensures
        spec_balance_of(balances.push((who, value)), who) == value,
        forall|other: u64|
            other != who ==> #[trigger] spec_balance_of(balances.push((who, value)), other)
                == spec_balance_of(balances, other),
{
    assert(balances.push((who, value)).drop_last() =~= balances);
}

impl ExternalBalances {
    /// Every reachable value of the ledger keeps one entry per address.
    pub open spec fn wf(&self) -> bool {
        unique_addresses(self@)
    }

    /// An empty ledger: every address has balance 0.
    pub fn new() -> (r: Self)
        ensures
            r.wf(),
            r@ == Seq::<(u64, u64)>::empty(),
    {
        ExternalBalances { balances: Vec::new() }
    }

    /// The spendable balance of `who`.
    pub fn balance(&self, who: u64) -> (r: u64)
        requires
            self.wf(),
        ensures
            r == spec_balance_of(self@, who),
    {
        let n = self.balances.len();
        for i in 0..n
            invariant
                self.wf(),
                n == self.balances.len(),
                forall|j: int| 0 <= j < i ==> (#[trigger] self.balances@[j]).0 != who,
        {
            if self.balances[i].0 == who {
                proof {
                    lemma_balance_at_index(self@, i as int);
                }
                return self.balances[i].1;
            }
        }
        proof {
            lemma_balance_absent(self@, who);
        }
        0
    }

    /// Sets the balance of `who`, adding an entry if none exists.
    pub fn set_balance(&mut self, who: u64, value: u64)
        requires
            old(self).wf(),
        ensures
            final(self).wf(),
            spec_balance_of(final(self)@, who) == value,
            forall|other: u64|
                other != who ==> #[trigger] spec_balance_of(final(self)@, other)
                    == spec_balance_of(old(self)@, other),
    {
        let n = self.balances.len();
        for i in 0..n
            invariant
                self.wf(),
                self@ == old(self)@,
                n == self.balances.len(),
                forall|j: int| 0 <= j < i ==> (#[trigger] self.balances@[j]).0 != who,
        {
            if self.balances[i].0 == who {
                proof {
                    lemma_balance_update(self@, i as int, value);
                }
                self.balances[i] = (who, value);
                return ;
            }
        }
        proof {
            lemma_balance_push(self@, who, value);
            lemma_balance_absent(self@, who);
        }
        self.balances.push((who, value));
    }

    /// Takes `amount` out of the spendable balance of `who`; fails, changing
    /// nothing, exactly when the balance cannot cover it.
    pub fn debit(&mut self, who: u64, amount: u64) -> (r: Result<(), BankError>)
        requires
            old(self).wf(),
        ensures
            final(self).wf(),
            spec_balance_of(old(self)@, who) < amount ==> r == Err::<(), BankError>(
                BankError::InsufficientCallerBalance,
            ) && final(self)@ == old(self)@,
            spec_balance_of(old(self)@, who) >= amount ==> {
                &&& r == Ok::<(), BankError>(())
                &&& spec_balance_of(final(self)@, who) == spec_balance_of(old(self)@, who) - amount
                &&& forall|other: u64|
                    other != who ==> #[trigger] spec_balance_of(final(self)@, other)
                        == spec_balance_of(old(self)@, other)
            },
    {
        let n = self.balances.len();
        for i in 0..n
            invariant
                self.wf(),
                self@ == old(self)@,
                n == self.balances.len(),
                forall|j: int| 0 <= j < i ==> (#[trigger] self.balances@[j]).0 != who,
        {
            if self.balances[i].0 == who {
                proof {
                    lemma_balance_at_index(self@, i as int);
                }
                let held = self.balances[i].1;
                if held < amount {
                    return Err(BankError::InsufficientCallerBalance);
                }
                proof {
                    lemma_balance_update(self@, i as int, (held - amount) as u64);
                }
                self.balances[i] = (who, held - amount);
                return Ok(());
            }
        }
        proof {
            lemma_balance_absent(self@, who);
        }
        if amount == 0 {
            Ok(())
        } else {
            Err(BankError::InsufficientCallerBalance)
        }
    }
}

} // verus!
