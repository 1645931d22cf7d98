//! Identifiers, permission descriptors, errors and events of the treasury
//! ledger.

use vstd::prelude::*;

verus! {

/// An 8-byte treasury identifier, minted once per bank account at
/// registration and never reused. The ledger issues them from a
/// monotonically increasing counter, so the account registered `n`-th
/// carries the identifier `n`.
#[derive(Clone, Copy, PartialEq, Eq, Structural, Debug)]
pub struct OnChainTreasuryID(pub u64);

impl OnChainTreasuryID {
    /// The successor identifier; the generator applies this once per
    /// confirmed registration.
    pub fn iterate(self) -> (r: Self)
        requires
            self.0 < u64::MAX,
        ensures
            r.0 == self.0 + 1,
    {
        OnChainTreasuryID(self.0 + 1)
    }
}

impl Default for OnChainTreasuryID {
    /// The zero identifier; no account ever carries it, since issued
    /// identifiers start at 1.
    fn default() -> (r: Self)
        ensures
            r.0 == 0,
    {
        OnChainTreasuryID(0)
    }
}

/// Which share group of an organization a permission descriptor points at.
#[derive(Clone, Copy, PartialEq, Eq, Structural, Debug)]
pub enum ShareID {
    /// A flat (unweighted) membership group.
    Flat(u32),
    /// A weighted share group; every holder is a member, whatever the weight.
    WeightedAtomic(u32),
}

/// Describes who may authorize spend reservations, commits and uncommits
/// against a bank account or a single reservation.
#[derive(Clone, Copy, PartialEq, Eq, Structural, Debug)]
pub enum WithdrawalPermissions {
    /// Exactly one designated owner address is authorized.
    DesignatedOwner(u64),
    /// Any member of the given organization's share group is authorized.
    AnyMemberOfOrgShareGroup(u32, ShareID),
}

/// Every way a ledger operation can fail. Each failure leaves all state
/// unchanged.
#[derive(Clone, Copy, PartialEq, Eq, Structural, Debug)]
pub enum BankError {
    /// The organization does not exist in the membership registry.
    OrganizationNotFound,
    /// The controller descriptor offered at registration is not a
    /// satisfiable governance configuration for the organization.
    GovernanceConfigRejected,
    /// The registration deposit is below the module minimum.
    DepositBelowMinimum,
    /// No account is stored under the given treasury identifier.
    AccountNotFound,
    /// No open reservation is stored under the given reservation identifier.
    ReservationNotFound,
    /// The caller fails the governance predicate of the relevant controller.
    Unauthorized,
    /// The account's free balance is smaller than the requested reservation.
    InsufficientFreeBalance,
    /// The reservation's uncommitted remainder is smaller than the requested
    /// commit or release.
    InsufficientUncommittedReservation,
    /// The caller's external spendable balance cannot cover the debit.
    InsufficientCallerBalance,
}

/// One entry of the ordered event log; every successful ledger operation
/// appends exactly one.
#[derive(PartialEq, Eq, Debug)]
pub enum BankEvent {
    /// `(seeder, new treasury id, seed deposit, organization, controller)`
    RegisteredNewOnChainBank(u64, OnChainTreasuryID, u64, u32, WithdrawalPermissions),
    /// `(depositor, treasury id, amount, reference)`
    CapitalDepositedIntoOnChainBankAccount(u64, OnChainTreasuryID, u64, Vec<u8>),
    /// `(reserver, treasury id, reservation id, reference, amount, controller)`
    SpendReservedForBankAccount(u64, OnChainTreasuryID, u64, Vec<u8>, u64, WithdrawalPermissions),
    /// `(committer, treasury id, reservation id, reference, amount, controller)`
    CommitSpendBeforeInternalTransfer(
        u64,
        OnChainTreasuryID,
        u64,
        Vec<u8>,
        u64,
        WithdrawalPermissions,
    ),
    /// `(releaser, treasury id, reservation id, amount)`
    UnreservedUncommittedFunds(u64, OnChainTreasuryID, u64, u64),
}

/// The mathematical shape of a [`BankEvent`]: the opaque byte reference is
/// a sequence, everything else is carried as is.
pub enum EventV {
    RegisteredNewOnChainBank(u64, OnChainTreasuryID, u64, u32, WithdrawalPermissions),
    CapitalDepositedIntoOnChainBankAccount(u64, OnChainTreasuryID, u64, Seq<u8>),
    SpendReservedForBankAccount(u64, OnChainTreasuryID, u64, Seq<u8>, u64, WithdrawalPermissions),
    CommitSpendBeforeInternalTransfer(
        u64,
        OnChainTreasuryID,
        u64,
        Seq<u8>,
        u64,
        WithdrawalPermissions,
    ),
    UnreservedUncommittedFunds(u64, OnChainTreasuryID, u64, u64),
}

impl View for BankEvent {
    type V = EventV;

    open spec fn view(&self) -> EventV {
        match self {
            BankEvent::RegisteredNewOnChainBank(who, id, amount, org, wp) => (
                EventV::RegisteredNewOnChainBank(*who, *id, *amount, *org, *wp)
            ),
            BankEvent::CapitalDepositedIntoOnChainBankAccount(who, id, amount, reason) => (
                EventV::CapitalDepositedIntoOnChainBankAccount(*who, *id, *amount, reason@)
            ),
            BankEvent::SpendReservedForBankAccount(who, id, rid, reason, amount, wp) => (
                EventV::SpendReservedForBankAccount(*who, *id, *rid, reason@, *amount, *wp)
            ),
            BankEvent::CommitSpendBeforeInternalTransfer(who, id, rid, reason, amount, wp) => (
                EventV::CommitSpendBeforeInternalTransfer(*who, *id, *rid, reason@, *amount, *wp)
            ),
            BankEvent::UnreservedUncommittedFunds(who, id, rid, amount) => (
                EventV::UnreservedUncommittedFunds(*who, *id, *rid, *amount)
            ),
        }
    }
}

} // verus!
