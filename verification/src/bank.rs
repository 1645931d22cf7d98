//! The treasury ledger: per-organization bank accounts split into free and
//! reserved balances, a reservation ledger for the two-phase spend protocol
//! (reserve, then commit or uncommit), and the ordered event log.
//!
//! Identifiers are sequential: the account registered `n`-th carries
//! treasury identifier `n` and sits at index `n - 1`; an account's `k`-th
//! reservation carries reservation identifier `k` and sits at index `k - 1`
//! of that account's reservation ledger. A reservation record is kept after
//! it closes (its committed portion reaches its amount); a closed record is
//! no longer addressable: committing or uncommitting against it fails as if
//! it were absent.
//!
//! Every operation either performs its whole state transition and appends
//! exactly one event, or fails leaving every piece of state unchanged.

use crate::external::spec_balance_of;
use crate::external::ExternalBalances;
use crate::gate::accepts_registration;
use crate::gate::authorizes_spend;
use crate::gate::spec_accepts_controller;
use crate::gate::spec_authorizes;
use crate::gate::OrgRegistry;
use crate::types::BankError;
use crate::types::BankEvent;
use crate::types::EventV;
use crate::types::OnChainTreasuryID;
use crate::types::WithdrawalPermissions;
use vstd::prelude::*;

verus! {

/// One spend reservation: `amount` was earmarked in total, `committed` of it
/// has already been transferred out, and `controller` is the snapshot of who
/// may commit against it.
pub struct SpendReservation {
    pub amount: u64,
    pub committed: u64,
    pub controller: WithdrawalPermissions,
}

/// The mathematical shape of a [`SpendReservation`].
#[verifier::ext_equal]
pub struct ResV {
    pub amount: int,
    pub committed: int,
    pub controller: WithdrawalPermissions,
}

impl View for SpendReservation {
    type V = ResV;

    open spec fn view(&self) -> ResV {
        ResV {
            amount: self.amount as int,
            committed: self.committed as int,
            controller: self.controller,
        }
    }
}

/// One bank account: its balance split, owning organization, account-level
/// controller, and reservation ledger.
pub struct Account {
    pub free: u64,
    pub reserved: u64,
    pub organization: u32,
    pub controller: WithdrawalPermissions,
    pub reservations: Vec<SpendReservation>,
}

/// The mathematical shape of an [`Account`].
#[verifier::ext_equal]
pub struct AccountV {
    pub free: int,
    pub reserved: int,
    pub organization: u32,
    pub controller: WithdrawalPermissions,
    pub reservations: Seq<ResV>,
}

impl View for Account {
    type V = AccountV;

    open spec fn view(&self) -> AccountV {
        AccountV {
            free: self.free as int,
            reserved: self.reserved as int,
            organization: self.organization,
            controller: self.controller,
            reservations: self.reservations@.map_values(|r: SpendReservation| r@),
        }
    }
}

/// The mathematical shape of the whole ledger.
#[verifier::ext_equal]
pub struct BankV {
    pub accounts: Seq<AccountV>,
    pub events: Seq<EventV>,
    pub min_deposit: u64,
}

/// The treasury ledger.
pub struct Bank {
    accounts: Vec<Account>,
    events: Vec<BankEvent>,
    min_deposit: u64,
}

impl View for Bank {
    type V = BankV;

    closed spec fn view(&self) -> BankV {
        BankV {
            accounts: self.accounts@.map_values(|a: Account| a@),
            events: self.events@.map_values(|e: BankEvent| e@),
            min_deposit: self.min_deposit,
        }
    }
}

/// The uncommitted remainder a reservation still holds.
pub open spec fn remaining(r: ResV) -> int {
    r.amount - r.committed
}

/// A reservation is open while some of its amount is uncommitted; it closes
/// exactly when `committed` reaches `amount`.
pub open spec fn is_open(r: ResV) -> bool {
    r.committed < r.amount
}

/// The sum of the uncommitted remainders of all reservations in the ledger.
pub open spec fn sum_remaining(rs: Seq<ResV>) -> int
    decreases rs.len(),
{
    if rs.len() == 0 {
        0
    } else {
        sum_remaining(rs.drop_last()) + remaining(rs.last())
    }
}

/// The sum of the uncommitted remainders of the open reservations alone.
pub open spec fn sum_open_remaining(rs: Seq<ResV>) -> int
    decreases rs.len(),
{
    if rs.len() == 0 {
        0
    } else {
        sum_open_remaining(rs.drop_last()) + if is_open(rs.last()) {
            remaining(rs.last())
        } else {
            0
        }
    }
}

/// The treasury identifier of the account stored at index `k`.
pub open spec fn id_of_index(k: int) -> OnChainTreasuryID {
    OnChainTreasuryID((k + 1) as u64)
}

/// Whether `id` resolves to a registered account.
pub open spec fn spec_account_exists(b: BankV, id: OnChainTreasuryID) -> bool {
    1 <= id.0 <= b.accounts.len()
}

/// The account registered under `id`.
pub open spec fn spec_account(b: BankV, id: OnChainTreasuryID) -> AccountV {
    b.accounts[id.0 - 1]
}

/// Whether `rid` resolves to a reservation record of account `id`, open or
/// closed.
pub open spec fn spec_reservation_exists(b: BankV, id: OnChainTreasuryID, rid: u64) -> bool {
    spec_account_exists(b, id) && 1 <= rid <= spec_account(b, id).reservations.len()
}

/// The reservation stored under `rid` on account `id`.
pub open spec fn spec_reservation(b: BankV, id: OnChainTreasuryID, rid: u64) -> ResV {
    spec_account(b, id).reservations[rid - 1]
}

/// Whether `rid` resolves to an open reservation of account `id`; a closed
/// record is not addressable.
pub open spec fn spec_reservation_open(b: BankV, id: OnChainTreasuryID, rid: u64) -> bool {
    spec_reservation_exists(b, id, rid) && is_open(spec_reservation(b, id, rid))
}

/// The treasury identifier an event speaks about.
pub open spec fn event_treasury_id(e: EventV) -> OnChainTreasuryID {
    match e {
        EventV::RegisteredNewOnChainBank(_, id, _, _, _) => id,
        EventV::CapitalDepositedIntoOnChainBankAccount(_, id, _, _) => id,
        EventV::SpendReservedForBankAccount(_, id, _, _, _, _) => id,
        EventV::CommitSpendBeforeInternalTransfer(_, id, _, _, _, _) => id,
        EventV::UnreservedUncommittedFunds(_, id, _, _) => id,
    }
}

/// How much an event pays into account `id`: registrations and deposits
/// count, nothing else does.
pub open spec fn deposit_contribution(e: EventV, id: OnChainTreasuryID) -> int {
    match e {
        EventV::RegisteredNewOnChainBank(_, eid, amount, _, _) => if eid == id {
            amount as int
        } else {
            0
        },
        EventV::CapitalDepositedIntoOnChainBankAccount(_, eid, amount, _) => if eid == id {
            amount as int
        } else {
            0
        },
        _ => 0,
    }
}

/// How much an event pays out of account `id`: committed transfers count,
/// nothing else does.
pub open spec fn payout_contribution(e: EventV, id: OnChainTreasuryID) -> int {
    match e {
        EventV::CommitSpendBeforeInternalTransfer(_, eid, _, _, amount, _) => if eid == id {
            amount as int
        } else {
            0
        },
        _ => 0,
    }
}

/// Everything ever paid into account `id` over the event log.
pub open spec fn total_deposited(es: Seq<EventV>, id: OnChainTreasuryID) -> int
    decreases es.len(),
{
    if es.len() == 0 {
        0
    } else {
        total_deposited(es.drop_last(), id) + deposit_contribution(es.last(), id)
    }
}

/// Everything ever paid out of account `id` over the event log.
pub open spec fn total_paid_out(es: Seq<EventV>, id: OnChainTreasuryID) -> int
    decreases es.len(),
{
    if es.len() == 0 {
        0
    } else {
        total_paid_out(es.drop_last(), id) + payout_contribution(es.last(), id)
    }
}

/// Well-formedness of a single account: balances are non-negative and their
/// sum fits the balance type, every reservation has committed at most its
/// amount, and the reserved balance is exactly the sum of the uncommitted
/// remainders of its reservations.
pub open spec fn account_wf(a: AccountV) -> bool {
    &&& 0 <= a.free
    &&& 0 <= a.reserved
    &&& a.free + a.reserved <= u64::MAX
    &&& forall|i: int|
        0 <= i < a.reservations.len() ==> {
            &&& 0 <= (#[trigger] a.reservations[i]).committed
            &&& a.reservations[i].committed <= a.reservations[i].amount
            &&& a.reservations[i].amount <= u64::MAX
        }
    &&& a.reserved == sum_remaining(a.reservations)
}

/// Well-formedness of the whole ledger. Every operation requires it of the
/// state it starts from and ensures it of the state it leaves, and the
/// constructor establishes it, so it holds in every reachable state.
///
/// Its last clause is the conservation law: for every account, what remains
/// on the account plus everything already paid out by committed transfers
/// equals everything ever paid in by its seed registration and deposits.
pub open spec fn bank_wf(b: BankV) -> bool {
    &&& b.accounts.len() <= u64::MAX
    &&& forall|k: int| 0 <= k < b.accounts.len() ==> account_wf(#[trigger] b.accounts[k])
    &&& forall|j: int|
        0 <= j < b.events.len() ==> 1 <= event_treasury_id(#[trigger] b.events[j]).0
            <= b.accounts.len()
    &&& forall|k: int|
        0 <= k < b.accounts.len() ==> (#[trigger] b.accounts[k]).free + b.accounts[k].reserved
            + total_paid_out(b.events, id_of_index(k)) == total_deposited(b.events, id_of_index(k))
}

/// Appending a reservation adds its remainder to the sum.
proof fn lemma_sum_remaining_push(rs: Seq<ResV>, r: ResV)
    ensures
        sum_remaining(rs.push(r)) == sum_remaining(rs) + remaining(r),
{
    assert(rs.push(r).drop_last() =~= rs);
}

/// Replacing the reservation at index `i` shifts the sum by the change of
/// that reservation's remainder.
proof fn lemma_sum_remaining_update(rs: Seq<ResV>, i: int, r: ResV)
    requires
        0 <= i < rs.len(),
    ensures
        sum_remaining(rs.update(i, r)) == sum_remaining(rs) - remaining(rs[i]) + remaining(r),
    decreases rs.len(),
{
    let updated = rs.update(i, r);
    if i == rs.len() - 1 {
        assert(updated.drop_last() =~= rs.drop_last());
    } else {
        assert(updated.drop_last() =~= rs.drop_last().update(i, r));
        assert(rs.drop_last()[i] == rs[i]);
        lemma_sum_remaining_update(rs.drop_last(), i, r);
        assert(updated.last() == rs.last());
    }
}

/// With every remainder non-negative, the sum bounds each remainder and is
/// itself non-negative.
proof fn lemma_sum_remaining_bounds(rs: Seq<ResV>, i: int)
    requires
        forall|j: int| 0 <= j < rs.len() ==> remaining(#[trigger] rs[j]) >= 0,
        0 <= i < rs.len(),
    ensures
        sum_remaining(rs) >= remaining(rs[i]),
        sum_remaining(rs) >= 0,
    decreases rs.len(),
{
    lemma_sum_remaining_nonneg(rs);
    if i == rs.len() - 1 {
        lemma_sum_remaining_nonneg(rs.drop_last());
    } else {
        assert(rs.drop_last()[i] == rs[i]);
        lemma_sum_remaining_bounds(rs.drop_last(), i);
    }
}

/// With every remainder non-negative, the sum is non-negative.
proof fn lemma_sum_remaining_nonneg(rs: Seq<ResV>)
    requires
        forall|j: int| 0 <= j < rs.len() ==> remaining(#[trigger] rs[j]) >= 0,
    ensures
        sum_remaining(rs) >= 0,
    decreases rs.len(),
{
    if rs.len() > 0 {
        lemma_sum_remaining_nonneg(rs.drop_last());
    }
}

/// Closed reservations contribute nothing: the sum over all reservations
/// equals the sum over the open ones, given committed never exceeds amount.
proof fn lemma_sum_open(rs: Seq<ResV>)
    requires
        forall|j: int| 0 <= j < rs.len() ==> (#[trigger] rs[j]).committed <= rs[j].amount,
    ensures
        sum_open_remaining(rs) == sum_remaining(rs),
    decreases rs.len(),
{
    if rs.len() > 0 {
        lemma_sum_open(rs.drop_last());
    }
}

/// Appending an event shifts both running totals by exactly that event's
/// contributions.
proof fn lemma_totals_push(es: Seq<EventV>, e: EventV, id: OnChainTreasuryID)
    ensures
        total_deposited(es.push(e), id) == total_deposited(es, id) + deposit_contribution(e, id),
        total_paid_out(es.push(e), id) == total_paid_out(es, id) + payout_contribution(e, id),
{
    assert(es.push(e).drop_last() =~= es);
}

/// An account no event speaks about has zero totals.
proof fn lemma_totals_absent(es: Seq<EventV>, id: OnChainTreasuryID)
    requires
        forall|j: int| 0 <= j < es.len() ==> event_treasury_id(#[trigger] es[j]) != id,
    ensures
        total_deposited(es, id) == 0,
        total_paid_out(es, id) == 0,
    decreases es.len(),
{
    if es.len() > 0 {
        lemma_totals_absent(es.drop_last(), id);
    }
}

/// Replacing the account at index `idx` and appending one event about that
/// very account keeps the ledger well-formed, provided the new account is
/// well-formed and its balance total moved by exactly the event's
/// contributions.
proof fn lemma_bank_wf_update(b: BankV, idx: int, a2: AccountV, e: EventV)
    requires
        bank_wf(b),
        0 <= idx < b.accounts.len(),
        account_wf(a2),
        event_treasury_id(e) == id_of_index(idx),
        a2.free + a2.reserved == b.accounts[idx].free + b.accounts[idx].reserved
            + deposit_contribution(e, id_of_index(idx)) - payout_contribution(e, id_of_index(idx)),
    ensures
        bank_wf(
            (BankV {
                accounts: b.accounts.update(idx, a2),
                events: b.events.push(e),
                min_deposit: b.min_deposit,
            }),
        ),
{
    let b2 = BankV {
        accounts: b.accounts.update(idx, a2),
        events: b.events.push(e),
        min_deposit: b.min_deposit,
    };
    assert forall|k: int|
        0 <= k < b2.accounts.len() implies (#[trigger] b2.accounts[k]).free + b2.accounts[k].reserved
        + total_paid_out(b2.events, id_of_index(k)) == total_deposited(
        b2.events,
        id_of_index(k),
    ) by {
        lemma_totals_push(b.events, e, id_of_index(k));
        if k != idx {
            assert(id_of_index(k).0 == k + 1);
            assert(id_of_index(idx).0 == idx + 1);
            assert(deposit_contribution(e, id_of_index(k)) == 0);
            assert(payout_contribution(e, id_of_index(k)) == 0);
        }
    }
}

/// Appending a fresh account and the registration event about it keeps the
/// ledger well-formed, provided the account is well-formed, carries no
/// reservations yet, and its whole balance is the event's deposit
/// contribution.
proof fn lemma_bank_wf_register(b: BankV, a: AccountV, e: EventV)
    requires
        bank_wf(b),
        b.accounts.len() < u64::MAX,
        account_wf(a),
        event_treasury_id(e) == id_of_index(b.accounts.len() as int),
        a.free + a.reserved == deposit_contribution(e, id_of_index(b.accounts.len() as int)),
        payout_contribution(e, id_of_index(b.accounts.len() as int)) == 0,
    ensures
        bank_wf(
            (BankV {
                accounts: b.accounts.push(a),
                events: b.events.push(e),
                min_deposit: b.min_deposit,
            }),
        ),
{
    let n = b.accounts.len() as int;
    let b2 = BankV {
        accounts: b.accounts.push(a),
        events: b.events.push(e),
        min_deposit: b.min_deposit,
    };
    assert forall|k: int|
        0 <= k < b2.accounts.len() implies (#[trigger] b2.accounts[k]).free + b2.accounts[k].reserved
        + total_paid_out(b2.events, id_of_index(k)) == total_deposited(
        b2.events,
        id_of_index(k),
    ) by {
        lemma_totals_push(b.events, e, id_of_index(k));
        if k == n {
            assert forall|j: int|
                0 <= j < b.events.len() implies event_treasury_id(#[trigger] b.events[j])
                != id_of_index(n) by {
                assert(event_treasury_id(b.events[j]).0 <= n);
                assert(id_of_index(n).0 == n + 1);
            }
            lemma_totals_absent(b.events, id_of_index(n));
        } else {
            assert(id_of_index(k).0 == k + 1);
            assert(id_of_index(n).0 == n + 1);
            assert(deposit_contribution(e, id_of_index(k)) == 0);
            assert(payout_contribution(e, id_of_index(k)) == 0);
        }
    }
}

impl Bank {
    /// Every reachable ledger value is well-formed: the constructor
    /// establishes [`bank_wf`] and every operation preserves it.
    pub open spec fn wf(&self) -> bool {
        bank_wf(self@)
    }

    /// An empty ledger that will demand at least `min_deposit` as the seed
    /// of every newly registered account.
    pub fn new(min_deposit: u64) -> (r: Self)
        ensures
            r.wf(),
            r@.accounts == Seq::<AccountV>::empty(),
            r@.events == Seq::<EventV>::empty(),
            r@.min_deposit == min_deposit,
    {
        let bank = Bank { accounts: Vec::new(), events: Vec::new(), min_deposit };
        proof {
            assert(bank@.accounts =~= Seq::<AccountV>::empty());
            assert(bank@.events =~= Seq::<EventV>::empty());
        }
        bank
    }

    /// The module minimum every registration seed must reach.
    pub fn minimum_initial_deposit(&self) -> (r: u64)
        ensures
            r == self@.min_deposit,
    {
        self.min_deposit
    }

    /// The account stored under `bank_id`, if any.
    pub fn account(&self, bank_id: OnChainTreasuryID) -> (r: Option<&Account>)
        ensures
            spec_account_exists(self@, bank_id) ==> (r matches Some(a) && a@ == spec_account(
                self@,
                bank_id,
            )),
            !spec_account_exists(self@, bank_id) ==> r is None,
    {
        let n = self.accounts.len();
        if bank_id.0 >= 1 && bank_id.0 <= n as u64 {
            Some(&self.accounts[(bank_id.0 - 1) as usize])
        } else {
            None
        }
    }

    /// How many events the log holds.
    pub fn event_count(&self) -> (r: usize)
        ensures
            r == self@.events.len(),
    {
        self.events.len()
    }

    /// The most recent event, if any operation has succeeded yet.
    pub fn last_event(&self) -> (r: Option<&BankEvent>)
        ensures
            self@.events.len() == 0 ==> r is None,
            self@.events.len() > 0 ==> (r matches Some(e) && e@ == self@.events.last()),
    {
        let n = self.events.len();
        if n == 0 {
            None
        } else {
            Some(&self.events[n - 1])
        }
    }

    /// Registers a new bank account for organization `org`, seeded with
    /// `seed` debited from `caller`'s external balance and controlled by
    /// `controller`.
    ///
    /// Succeeds exactly when the governance gate accepts the configuration,
    /// the seed reaches the module minimum, and the caller's external
    /// balance covers the seed; then the freshly minted treasury identifier
    /// is returned and one registration event is appended. Every failure
    /// leaves all state unchanged.
    pub fn register_and_seed_for_bank_account(
        &mut self,
        external: &mut ExternalBalances,
        registry: &OrgRegistry,
        caller: u64,
        seed: u64,
        org: u32,
        controller: WithdrawalPermissions,
    ) -> (r: Result<OnChainTreasuryID, BankError>)
        requires
            old(self).wf(),
            old(external).wf(),
            old(self)@.accounts.len() < u64::MAX,
        ensures
            final(self).wf(),
            final(external).wf(),
            !spec_accepts_controller(registry@, org, controller) ==> (r == Err::<
                OnChainTreasuryID,
                BankError,
            >(BankError::GovernanceConfigRejected) && final(self)@ == old(self)@ && final(external)@
                == old(external)@),
            spec_accepts_controller(registry@, org, controller) && seed < old(self)@.min_deposit
                ==> (r == Err::<OnChainTreasuryID, BankError>(BankError::DepositBelowMinimum)
                && final(self)@ == old(self)@ && final(external)@ == old(external)@),
            spec_accepts_controller(registry@, org, controller) && seed >= old(self)@.min_deposit
                && spec_balance_of(old(external)@, caller) < seed ==> (r == Err::<
                OnChainTreasuryID,
                BankError,
            >(BankError::InsufficientCallerBalance) && final(self)@ == old(self)@ && final(external)@ == old(external)@),
            spec_accepts_controller(registry@, org, controller) && seed >= old(self)@.min_deposit
                && spec_balance_of(old(external)@, caller) >= seed ==> {
                &&& r == Ok::<OnChainTreasuryID, BankError>(
                    id_of_index(old(self)@.accounts.len() as int),
                )
                &&& final(self)@.accounts == old(self)@.accounts.push(
                    (AccountV {
                        free: seed as int,
                        reserved: 0,
                        organization: org,
                        controller,
                        reservations: Seq::<ResV>::empty(),
                    }),
                )
                &&& final(self)@.events == old(self)@.events.push(
                    EventV::RegisteredNewOnChainBank(
                        caller,
                        id_of_index(old(self)@.accounts.len() as int),
                        seed,
                        org,
                        controller,
                    ),
                )
                &&& final(self)@.min_deposit == old(self)@.min_deposit
                &&& spec_balance_of(final(external)@, caller) == spec_balance_of(
                    old(external)@,
                    caller,
                ) - seed
                &&& forall|other: u64|
                    other != caller ==> #[trigger] spec_balance_of(final(external)@, other)
                        == spec_balance_of(old(external)@, other)
            },
    {
        match accepts_registration(registry, org, &controller, seed, self.min_deposit) {
            Err(e) => {
                return Err(e);
            },
            Ok(()) => {},
        }
        match external.debit(caller, seed) {
            Err(e) => {
                return Err(e);
            },
            Ok(()) => {},
        }
        let n = self.accounts.len();
        let id = OnChainTreasuryID(n as u64 + 1);
        let ghost before = self@;
        let account = Account {
            free: seed,
            reserved: 0,
            organization: org,
            controller,
            reservations: Vec::new(),
        };
        let ghost a_view = account@;
        let event = BankEvent::RegisteredNewOnChainBank(caller, id, seed, org, controller);
        let ghost e_view = event@;
        self.accounts.push(account);
        self.events.push(event);
        proof {
            assert(a_view.reservations =~= Seq::<ResV>::empty());
            assert(id == id_of_index(before.accounts.len() as int));
            assert(self@.accounts =~~= before.accounts.push(a_view));
            assert(self@.events =~~= before.events.push(e_view));
            lemma_bank_wf_register(before, a_view, e_view);
        }
        Ok(id)
    }

    /// Deposits `amount` into the account stored under `bank_id`, debiting
    /// `caller`'s external balance, and appends one deposit event carrying
    /// the opaque `reason` reference.
    ///
    /// Fails with `AccountNotFound` exactly when the identifier is unknown,
    /// and with `InsufficientCallerBalance` exactly when the caller's
    /// external balance cannot cover the amount; every failure leaves all
    /// state unchanged.
    pub fn deposit_from_signer_for_bank_account(
        &mut self,
        external: &mut ExternalBalances,
        caller: u64,
        bank_id: OnChainTreasuryID,
        amount: u64,
        reason: Vec<u8>,
    ) -> (r: Result<(), BankError>)
        requires
            old(self).wf(),
            old(external).wf(),
            spec_account_exists(old(self)@, bank_id) ==> spec_account(old(self)@, bank_id).free
                + spec_account(old(self)@, bank_id).reserved + amount <= u64::MAX,
        ensures
            final(self).wf(),
            final(external).wf(),
            !spec_account_exists(old(self)@, bank_id) ==> (r == Err::<(), BankError>(
                BankError::AccountNotFound,
            ) && final(self)@ == old(self)@ && final(external)@ == old(external)@),
            spec_account_exists(old(self)@, bank_id) && spec_balance_of(old(external)@, caller)
                < amount ==> (r == Err::<(), BankError>(BankError::InsufficientCallerBalance)
                && final(self)@ == old(self)@ && final(external)@ == old(external)@),
            spec_account_exists(old(self)@, bank_id) && spec_balance_of(old(external)@, caller)
                >= amount ==> {
                &&& r == Ok::<(), BankError>(())
                &&& final(self)@.accounts == old(self)@.accounts.update(
                    bank_id.0 - 1,
                    (AccountV {
                        free: spec_account(old(self)@, bank_id).free + amount,
                        ..spec_account(old(self)@, bank_id)
                    }),
                )
                &&& final(self)@.events == old(self)@.events.push(
                    EventV::CapitalDepositedIntoOnChainBankAccount(caller, bank_id, amount, reason@),
                )
                &&& final(self)@.min_deposit == old(self)@.min_deposit
                &&& spec_balance_of(final(external)@, caller) == spec_balance_of(
                    old(external)@,
                    caller,
                ) - amount
                &&& forall|other: u64|
                    other != caller ==> #[trigger] spec_balance_of(final(external)@, other)
                        == spec_balance_of(old(external)@, other)
            },
    {
        let n = self.accounts.len();
        if bank_id.0 == 0 || bank_id.0 > n as u64 {
            return Err(BankError::AccountNotFound);
        }
        let idx = (bank_id.0 - 1) as usize;
        match external.debit(caller, amount) {
            Err(e) => {
                return Err(e);
            },
            Ok(()) => {},
        }
        let ghost before = self@;
        let account = &mut self.accounts[idx];
        account.free = account.free + amount;
        let event = BankEvent::CapitalDepositedIntoOnChainBankAccount(caller, bank_id, amount, reason);
        let ghost e_view = event@;
        self.events.push(event);
        proof {
            let a2 = (AccountV {
                free: spec_account(before, bank_id).free + amount,
                ..spec_account(before, bank_id)
            });
            assert(self@.accounts =~~= before.accounts.update(idx as int, a2));
            assert(self@.events =~~= before.events.push(e_view));
            lemma_bank_wf_update(before, idx as int, a2, e_view);
        }
        Ok(())
    }

    /// Reserves `amount` of the account's free balance for a future spend:
    /// the balance moves from free to reserved, a fresh open reservation
    /// controlled by `controller` is appended to the account's reservation
    /// ledger, its sequential identifier is returned, and one reservation
    /// event carrying the opaque `reason` reference is appended.
    ///
    /// Succeeds exactly when the account exists, its free balance covers
    /// the amount, and the caller satisfies the account's own controller
    /// (the account owner reserving against their own account is thereby
    /// permitted). Every failure leaves all state unchanged.
    pub fn reserve_spend_for_bank_account(
        &mut self,
        registry: &OrgRegistry,
        caller: u64,
        bank_id: OnChainTreasuryID,
        reason: Vec<u8>,
        amount: u64,
        controller: WithdrawalPermissions,
    ) -> (r: Result<u64, BankError>)
        requires
            old(self).wf(),
            spec_account_exists(old(self)@, bank_id) ==> spec_account(
                old(self)@,
                bank_id,
            ).reservations.len() < u64::MAX,
        ensures
            final(self).wf(),
            !spec_account_exists(old(self)@, bank_id) ==> (r == Err::<u64, BankError>(
                BankError::AccountNotFound,
            ) && final(self)@ == old(self)@),
            spec_account_exists(old(self)@, bank_id) && spec_account(old(self)@, bank_id).free
                < amount ==> (r == Err::<u64, BankError>(BankError::InsufficientFreeBalance)
                && final(self)@ == old(self)@),
            spec_account_exists(old(self)@, bank_id) && spec_account(old(self)@, bank_id).free
                >= amount && !spec_authorizes(
                registry@,
                caller,
                spec_account(old(self)@, bank_id).controller,
            ) ==> (r == Err::<u64, BankError>(BankError::Unauthorized) && final(self)@ == old(self)@),
            spec_account_exists(old(self)@, bank_id) && spec_account(old(self)@, bank_id).free
                >= amount && spec_authorizes(
                registry@,
                caller,
                spec_account(old(self)@, bank_id).controller,
            ) ==> {
                &&& r == Ok::<u64, BankError>(
                    ((spec_account(old(self)@, bank_id).reservations.len() + 1) as u64),
                )
                &&& final(self)@.accounts == old(self)@.accounts.update(
                    bank_id.0 - 1,
                    (AccountV {
                        free: spec_account(old(self)@, bank_id).free - amount,
                        reserved: spec_account(old(self)@, bank_id).reserved + amount,
                        reservations: spec_account(old(self)@, bank_id).reservations.push(
                            (ResV { amount: amount as int, committed: 0, controller }),
                        ),
                        ..spec_account(old(self)@, bank_id)
                    }),
                )
                &&& final(self)@.events == old(self)@.events.push(
                    EventV::SpendReservedForBankAccount(
                        caller,
                        bank_id,
                        ((spec_account(old(self)@, bank_id).reservations.len() + 1) as u64),
                        reason@,
                        amount,
                        controller,
                    ),
                )
                &&& final(self)@.min_deposit == old(self)@.min_deposit
            },
    {
        let n = self.accounts.len();
        if bank_id.0 == 0 || bank_id.0 > n as u64 {
            return Err(BankError::AccountNotFound);
        }
        let idx = (bank_id.0 - 1) as usize;
        if self.accounts[idx].free < amount {
            return Err(BankError::InsufficientFreeBalance);
        }
        if !authorizes_spend(registry, caller, &self.accounts[idx].controller) {
            return Err(BankError::Unauthorized);
        }
        let rid = self.accounts[idx].reservations.len() as u64 + 1;
        let ghost before = self@;
        let account = &mut self.accounts[idx];
        account.free = account.free - amount;
        account.reserved = account.reserved + amount;
        account.reservations.push(SpendReservation { amount, committed: 0, controller });
        let event = BankEvent::SpendReservedForBankAccount(
            caller,
            bank_id,
            rid,
            reason,
            amount,
            controller,
        );
        let ghost e_view = event@;
        self.events.push(event);
        proof {
            let a_old = spec_account(before, bank_id);
            let a2 = (AccountV {
                free: a_old.free - amount,
                reserved: a_old.reserved + amount,
                reservations: a_old.reservations.push(
                    (ResV { amount: amount as int, committed: 0, controller }),
                ),
                ..a_old
            });
            assert(self@.accounts =~~= before.accounts.update(idx as int, a2));
            assert(self@.events =~~= before.events.push(e_view));
            lemma_sum_remaining_push(
                a_old.reservations,
                (ResV { amount: amount as int, committed: 0, controller }),
            );
            lemma_bank_wf_update(before, idx as int, a2, e_view);
        }
        Ok(rid)
    }

    /// Commits `amount` of an open reservation's uncommitted remainder: the
    /// committed portion grows, the account's reserved balance shrinks by
    /// the transferred amount, and one commit event carrying the opaque
    /// `reason` reference and the transfer's `future_controller` is
    /// appended. When the committed portion reaches the reservation's
    /// amount the reservation closes, and any further commit or uncommit
    /// against its identifier fails with `ReservationNotFound`, changing
    /// nothing.
    ///
    /// Succeeds exactly when the account exists, the reservation exists and
    /// is open, the caller satisfies the reservation's own controller, and
    /// the uncommitted remainder covers the amount. Every failure leaves
    /// all state unchanged.
    pub fn commit_reserved_spend_for_transfer_inside_bank_account(
        &mut self,
        registry: &OrgRegistry,
        caller: u64,
        bank_id: OnChainTreasuryID,
        reservation_id: u64,
        reason: Vec<u8>,
        amount: u64,
        future_controller: WithdrawalPermissions,
    ) -> (r: Result<(), BankError>)
        requires
            old(self).wf(),
        ensures
            final(self).wf(),
            !spec_account_exists(old(self)@, bank_id) ==> (r == Err::<(), BankError>(
                BankError::AccountNotFound,
            ) && final(self)@ == old(self)@),
            spec_account_exists(old(self)@, bank_id) && !spec_reservation_open(
                old(self)@,
                bank_id,
                reservation_id,
            ) ==> (r == Err::<(), BankError>(BankError::ReservationNotFound) && final(self)@ == old(self)@),
            spec_reservation_open(old(self)@, bank_id, reservation_id) && !spec_authorizes(
                registry@,
                caller,
                spec_reservation(old(self)@, bank_id, reservation_id).controller,
            ) ==> (r == Err::<(), BankError>(BankError::Unauthorized) && final(self)@ == old(self)@),
            spec_reservation_open(old(self)@, bank_id, reservation_id) && spec_authorizes(
                registry@,
                caller,
                spec_reservation(old(self)@, bank_id, reservation_id).controller,
            ) && remaining(spec_reservation(old(self)@, bank_id, reservation_id)) < amount ==> (r
                == Err::<(), BankError>(BankError::InsufficientUncommittedReservation) && final(self)@ == old(self)@),
            spec_reservation_open(old(self)@, bank_id, reservation_id) && spec_authorizes(
                registry@,
                caller,
                spec_reservation(old(self)@, bank_id, reservation_id).controller,
            ) && remaining(spec_reservation(old(self)@, bank_id, reservation_id)) >= amount ==> {
                &&& r == Ok::<(), BankError>(())
                &&& final(self)@.accounts == old(self)@.accounts.update(
                    bank_id.0 - 1,
                    (AccountV {
                        reserved: spec_account(old(self)@, bank_id).reserved - amount,
                        reservations: spec_account(old(self)@, bank_id).reservations.update(
                            reservation_id - 1,
                            (ResV {
                                committed: spec_reservation(
                                    old(self)@,
                                    bank_id,
                                    reservation_id,
                                ).committed + amount,
                                ..spec_reservation(old(self)@, bank_id, reservation_id)
                            }),
                        ),
                        ..spec_account(old(self)@, bank_id)
                    }),
                )
                &&& final(self)@.events == old(self)@.events.push(
                    EventV::CommitSpendBeforeInternalTransfer(
                        caller,
                        bank_id,
                        reservation_id,
                        reason@,
                        amount,
                        future_controller,
                    ),
                )
                &&& final(self)@.min_deposit == old(self)@.min_deposit
            },
    {
        let n = self.accounts.len();
        if bank_id.0 == 0 || bank_id.0 > n as u64 {
            return Err(BankError::AccountNotFound);
        }
        let idx = (bank_id.0 - 1) as usize;
        let rcount = self.accounts[idx].reservations.len();
        if reservation_id == 0 || reservation_id > rcount as u64 {
            return Err(BankError::ReservationNotFound);
        }
        let ridx = (reservation_id - 1) as usize;
        if self.accounts[idx].reservations[ridx].committed
            >= self.accounts[idx].reservations[ridx].amount {
            return Err(BankError::ReservationNotFound);
        }
        if !authorizes_spend(registry, caller, &self.accounts[idx].reservations[ridx].controller) {
            return Err(BankError::Unauthorized);
        }
        if self.accounts[idx].reservations[ridx].amount
            - self.accounts[idx].reservations[ridx].committed < amount {
            return Err(BankError::InsufficientUncommittedReservation);
        }
        let ghost before = self@;
        proof {
            let a_old = spec_account(before, bank_id);
            assert forall|j: int| 0 <= j < a_old.reservations.len() implies remaining(
                #[trigger] a_old.reservations[j],
            ) >= 0 by {
                assert(account_wf(a_old));
            }
            lemma_sum_remaining_bounds(a_old.reservations, ridx as int);
        }
        let account = &mut self.accounts[idx];
        let res = &mut account.reservations[ridx];
        res.committed = res.committed + amount;
        account.reserved = account.reserved - amount;
        let event = BankEvent::CommitSpendBeforeInternalTransfer(
            caller,
            bank_id,
            reservation_id,
            reason,
            amount,
            future_controller,
        );
        let ghost e_view = event@;
        self.events.push(event);
        proof {
            let a_old = spec_account(before, bank_id);
            let r_old = spec_reservation(before, bank_id, reservation_id);
            let r2 = (ResV { committed: r_old.committed + amount, ..r_old });
            let a2 = (AccountV {
                reserved: a_old.reserved - amount,
                reservations: a_old.reservations.update(reservation_id - 1, r2),
                ..a_old
            });
            assert(self@.accounts =~~= before.accounts.update(idx as int, a2));
            assert(self@.events =~~= before.events.push(e_view));
            lemma_sum_remaining_update(a_old.reservations, ridx as int, r2);
            lemma_bank_wf_update(before, idx as int, a2, e_view);
        }
        Ok(())
    }

    /// Releases `amount` of an open reservation's uncommitted remainder
    /// back to the account's free balance: the reservation's amount
    /// shrinks, the balance moves from reserved to free, and one release
    /// event is appended. When the release equals the whole remainder the
    /// reservation closes, and any further commit or uncommit against its
    /// identifier fails with `ReservationNotFound`, changing nothing.
    ///
    /// Succeeds exactly when the account exists, the reservation exists and
    /// is open, the caller satisfies the account's own controller (the
    /// release restores account funds, so account-level permission
    /// decides), and the uncommitted remainder covers the amount. Every
    /// failure leaves all state unchanged.
    pub fn unreserve_uncommitted_reservation_to_make_free(
        &mut self,
        registry: &OrgRegistry,
        caller: u64,
        bank_id: OnChainTreasuryID,
        reservation_id: u64,
        amount: u64,
    ) -> (r: Result<(), BankError>)
        requires
            old(self).wf(),
        ensures
            final(self).wf(),
            !spec_account_exists(old(self)@, bank_id) ==> (r == Err::<(), BankError>(
                BankError::AccountNotFound,
            ) && final(self)@ == old(self)@),
            spec_account_exists(old(self)@, bank_id) && !spec_reservation_open(
                old(self)@,
                bank_id,
                reservation_id,
            ) ==> (r == Err::<(), BankError>(BankError::ReservationNotFound) && final(self)@ == old(self)@),
            spec_reservation_open(old(self)@, bank_id, reservation_id) && !spec_authorizes(
                registry@,
                caller,
                spec_account(old(self)@, bank_id).controller,
            ) ==> (r == Err::<(), BankError>(BankError::Unauthorized) && final(self)@ == old(self)@),
            spec_reservation_open(old(self)@, bank_id, reservation_id) && spec_authorizes(
                registry@,
                caller,
                spec_account(old(self)@, bank_id).controller,
            ) && remaining(spec_reservation(old(self)@, bank_id, reservation_id)) < amount ==> (r
                == Err::<(), BankError>(BankError::InsufficientUncommittedReservation) && final(self)@ == old(self)@),
            spec_reservation_open(old(self)@, bank_id, reservation_id) && spec_authorizes(
                registry@,
                caller,
                spec_account(old(self)@, bank_id).controller,
            ) && remaining(spec_reservation(old(self)@, bank_id, reservation_id)) >= amount ==> {
                &&& r == Ok::<(), BankError>(())
                &&& final(self)@.accounts == old(self)@.accounts.update(
                    bank_id.0 - 1,
                    (AccountV {
                        free: spec_account(old(self)@, bank_id).free + amount,
                        reserved: spec_account(old(self)@, bank_id).reserved - amount,
                        reservations: spec_account(old(self)@, bank_id).reservations.update(
                            reservation_id - 1,
                            (ResV {
                                amount: spec_reservation(
                                    old(self)@,
                                    bank_id,
                                    reservation_id,
                                ).amount - amount,
                                ..spec_reservation(old(self)@, bank_id, reservation_id)
                            }),
                        ),
                        ..spec_account(old(self)@, bank_id)
                    }),
                )
                &&& final(self)@.events == old(self)@.events.push(
                    EventV::UnreservedUncommittedFunds(caller, bank_id, reservation_id, amount),
                )
                &&& final(self)@.min_deposit == old(self)@.min_deposit
            },
    {
        let n = self.accounts.len();
        if bank_id.0 == 0 || bank_id.0 > n as u64 {
            return Err(BankError::AccountNotFound);
        }
        let idx = (bank_id.0 - 1) as usize;
        let rcount = self.accounts[idx].reservations.len();
        if reservation_id == 0 || reservation_id > rcount as u64 {
            return Err(BankError::ReservationNotFound);
        }
        let ridx = (reservation_id - 1) as usize;
        if self.accounts[idx].reservations[ridx].committed
            >= self.accounts[idx].reservations[ridx].amount {
            return Err(BankError::ReservationNotFound);
        }
        if !authorizes_spend(registry, caller, &self.accounts[idx].controller) {
            return Err(BankError::Unauthorized);
        }
        if self.accounts[idx].reservations[ridx].amount
            - self.accounts[idx].reservations[ridx].committed < amount {
            return Err(BankError::InsufficientUncommittedReservation);
        }
        let ghost before = self@;
        proof {
            let a_old = spec_account(before, bank_id);
            assert forall|j: int| 0 <= j < a_old.reservations.len() implies remaining(
                #[trigger] a_old.reservations[j],
            ) >= 0 by {
                assert(account_wf(a_old));
            }
            lemma_sum_remaining_bounds(a_old.reservations, ridx as int);
        }
        let account = &mut self.accounts[idx];
        let res = &mut account.reservations[ridx];
        res.amount = res.amount - amount;
        account.reserved = account.reserved - amount;
        account.free = account.free + amount;
        let event = BankEvent::UnreservedUncommittedFunds(caller, bank_id, reservation_id, amount);
        let ghost e_view = event@;
        self.events.push(event);
        proof {
            let a_old = spec_account(before, bank_id);
            let r_old = spec_reservation(before, bank_id, reservation_id);
            let r2 = (ResV { amount: r_old.amount - amount, ..r_old });
            let a2 = (AccountV {
                free: a_old.free + amount,
                reserved: a_old.reserved - amount,
                reservations: a_old.reservations.update(reservation_id - 1, r2),
                ..a_old
            });
            assert(self@.accounts =~~= before.accounts.update(idx as int, a2));
            assert(self@.events =~~= before.events.push(e_view));
            lemma_sum_remaining_update(a_old.reservations, ridx as int, r2);
            lemma_bank_wf_update(before, idx as int, a2, e_view);
        }
        Ok(())
    }
}

/// Conservation: in every well-formed (hence every reachable) ledger state,
/// an account's free plus reserved balance, plus everything already paid
/// out of it by committed transfers, equals its seed deposit plus every
/// subsequent deposit, as recorded by the event log.
pub proof fn lemma_conservation(b: BankV, id: OnChainTreasuryID)
    requires
        bank_wf(b),
        spec_account_exists(b, id),
    ensures
        spec_account(b, id).free + spec_account(b, id).reserved + total_paid_out(b.events, id)
            == total_deposited(b.events, id),
{
    let k = id.0 - 1;
    assert(id_of_index(k) == id);
    assert(b.accounts[k].free + b.accounts[k].reserved + total_paid_out(b.events, id_of_index(k))
        == total_deposited(b.events, id_of_index(k)));
}

/// No negative balances: in every well-formed (hence every reachable)
/// ledger state, an account's free and reserved balances are non-negative.
pub proof fn lemma_no_negative_balances(b: BankV, id: OnChainTreasuryID)
    requires
        bank_wf(b),
        spec_account_exists(b, id),
    ensures
        spec_account(b, id).free >= 0,
        spec_account(b, id).reserved >= 0,
{
    assert(account_wf(b.accounts[id.0 - 1]));
}

/// Reservation accounting: in every well-formed (hence every reachable)
/// ledger state, an account's reserved balance equals the sum of
/// `amount - committed` over its open reservations; closed reservations
/// contribute nothing.
pub proof fn lemma_reservation_accounting(b: BankV, id: OnChainTreasuryID)
    requires
        bank_wf(b),
        spec_account_exists(b, id),
    ensures
        spec_account(b, id).reserved == sum_open_remaining(spec_account(b, id).reservations),
{
    assert(account_wf(b.accounts[id.0 - 1]));
    lemma_sum_open(spec_account(b, id).reservations);
}

} // verus!
