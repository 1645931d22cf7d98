use bank_onchain::bank::Bank;
use bank_onchain::external::ExternalBalances;
use bank_onchain::gate::OrgRegistry;
use bank_onchain::types::BankError;
use bank_onchain::types::BankEvent;
use bank_onchain::types::OnChainTreasuryID;
use bank_onchain::types::ShareID;
use bank_onchain::types::WithdrawalPermissions;

/// A bank with one registered account controlled by the given descriptor,
/// seeded with `seed` by address 1.
fn bank_with_account(
    seed: u64,
    controller: WithdrawalPermissions,
) -> (Bank, ExternalBalances, OrgRegistry, OnChainTreasuryID) {
    let mut external = ExternalBalances::new();
    external.set_balance(1, 100);
    external.set_balance(2, 98);
    external.set_balance(5, 10);
    let mut registry = OrgRegistry::new();
    registry.register_flat_organization(b"build cool shit".to_vec(), vec![1, 2, 3, 4, 5, 6]);
    let group = vec![(1, 5), (2, 5), (3, 5), (4, 5)];
    assert_eq!(registry.register_inner_weighted_share_group(1, group), Ok(1));
    let mut bank = Bank::new(5);
    let id = bank
        .register_and_seed_for_bank_account(&mut external, &registry, 1, seed, 1, controller)
        .unwrap();
    (bank, external, registry, id)
}

fn weighted_controller() -> WithdrawalPermissions {
    WithdrawalPermissions::AnyMemberOfOrgShareGroup(1u32, ShareID::WeightedAtomic(1u32))
}

/// The sum of the remaining (uncommitted) amounts over the open
/// reservations of the account stored under `id`.
fn open_remainder_sum(bank: &Bank, id: OnChainTreasuryID) -> u64 {
    let account = bank.account(id).unwrap();
    let mut total = 0u64;
    for r in account.reservations.iter() {
        if r.committed < r.amount {
            total += r.amount - r.committed;
        }
    }
    total
}

#[test]
fn conservation_holds_across_operations() {
    let (mut bank, mut external, registry, id) = bank_with_account(10, weighted_controller());
    let reason = Vec::<u8>::new();
    assert_eq!(
        bank.deposit_from_signer_for_bank_account(&mut external, 1, id, 10, reason.clone()),
        Ok(())
    );
    assert_eq!(
        bank.reserve_spend_for_bank_account(
            &registry,
            1,
            id,
            reason.clone(),
            10,
            weighted_controller()
        ),
        Ok(1)
    );
    assert_eq!(
        bank.commit_reserved_spend_for_transfer_inside_bank_account(
            &registry,
            1,
            id,
            1,
            reason.clone(),
            4,
            weighted_controller()
        ),
        Ok(())
    );
    assert_eq!(
        bank.unreserve_uncommitted_reservation_to_make_free(&registry, 1, id, 1, 3),
        Ok(())
    );
    let account = bank.account(id).unwrap();
    // deposits total 20; 4 were paid out by the commit; the rest is split
    // between free (10 + 10 - 10 + 3) and reserved (10 - 4 - 3)
    assert_eq!(account.free, 13);
    assert_eq!(account.reserved, 3);
    assert_eq!(account.free + account.reserved + 4, 20);
}

#[test]
fn reserved_matches_open_reservation_remainders() {
    let (mut bank, _external, registry, id) = bank_with_account(50, weighted_controller());
    let reason = Vec::<u8>::new();
    assert_eq!(
        bank.reserve_spend_for_bank_account(
            &registry,
            1,
            id,
            reason.clone(),
            20,
            weighted_controller()
        ),
        Ok(1)
    );
    assert_eq!(
        bank.reserve_spend_for_bank_account(
            &registry,
            2,
            id,
            reason.clone(),
            15,
            weighted_controller()
        ),
        Ok(2)
    );
    assert_eq!(open_remainder_sum(&bank, id), 35);
    assert_eq!(bank.account(id).unwrap().reserved, 35);
    // a partial commit shrinks the first reservation's remainder
    assert_eq!(
        bank.commit_reserved_spend_for_transfer_inside_bank_account(
            &registry,
            1,
            id,
            1,
            reason.clone(),
            5,
            weighted_controller()
        ),
        Ok(())
    );
    assert_eq!(open_remainder_sum(&bank, id), 30);
    assert_eq!(bank.account(id).unwrap().reserved, 30);
    // closing the second reservation removes it from the open set
    assert_eq!(
        bank.unreserve_uncommitted_reservation_to_make_free(&registry, 1, id, 2, 15),
        Ok(())
    );
    assert_eq!(open_remainder_sum(&bank, id), 15);
    assert_eq!(bank.account(id).unwrap().reserved, 15);
}

#[test]
fn closed_by_full_commit_rejects_further_operations() {
    let (mut bank, _external, registry, id) = bank_with_account(10, weighted_controller());
    let reason = Vec::<u8>::new();
    assert_eq!(
        bank.reserve_spend_for_bank_account(
            &registry,
            1,
            id,
            reason.clone(),
            10,
            weighted_controller()
        ),
        Ok(1)
    );
    assert_eq!(
        bank.commit_reserved_spend_for_transfer_inside_bank_account(
            &registry,
            1,
            id,
            1,
            reason.clone(),
            10,
            weighted_controller()
        ),
        Ok(())
    );
    assert_eq!(bank.account(id).unwrap().reserved, 0);
    let events_before = bank.event_count();
    let free_before = bank.account(id).unwrap().free;
    // the reservation is closed: both follow-up operations fail as if the
    // identifier were unknown, and nothing changes
    assert_eq!(
        bank.commit_reserved_spend_for_transfer_inside_bank_account(
            &registry,
            1,
            id,
            1,
            reason.clone(),
            1,
            weighted_controller()
        ),
        Err(BankError::ReservationNotFound)
    );
    assert_eq!(
        bank.unreserve_uncommitted_reservation_to_make_free(&registry, 1, id, 1, 1),
        Err(BankError::ReservationNotFound)
    );
    assert_eq!(bank.event_count(), events_before);
    assert_eq!(bank.account(id).unwrap().free, free_before);
    assert_eq!(bank.account(id).unwrap().reserved, 0);
}

#[test]
fn closed_by_full_release_rejects_further_operations() {
    let (mut bank, _external, registry, id) = bank_with_account(10, weighted_controller());
    let reason = Vec::<u8>::new();
    assert_eq!(
        bank.reserve_spend_for_bank_account(
            &registry,
            1,
            id,
            reason.clone(),
            10,
            weighted_controller()
        ),
        Ok(1)
    );
    // releasing the whole remainder closes the reservation
    assert_eq!(
        bank.unreserve_uncommitted_reservation_to_make_free(&registry, 1, id, 1, 10),
        Ok(())
    );
    let account = bank.account(id).unwrap();
    assert_eq!(account.free, 10);
    assert_eq!(account.reserved, 0);
    assert_eq!(
        bank.commit_reserved_spend_for_transfer_inside_bank_account(
            &registry,
            1,
            id,
            1,
            reason.clone(),
            1,
            weighted_controller()
        ),
        Err(BankError::ReservationNotFound)
    );
    assert_eq!(
        bank.unreserve_uncommitted_reservation_to_make_free(&registry, 1, id, 1, 1),
        Err(BankError::ReservationNotFound)
    );
}

#[test]
fn partial_release_leaves_remainder() {
    let (mut bank, _external, registry, id) = bank_with_account(10, weighted_controller());
    let reason = Vec::<u8>::new();
    assert_eq!(
        bank.reserve_spend_for_bank_account(
            &registry,
            1,
            id,
            reason.clone(),
            10,
            weighted_controller()
        ),
        Ok(1)
    );
    assert_eq!(
        bank.unreserve_uncommitted_reservation_to_make_free(&registry, 1, id, 1, 9),
        Ok(())
    );
    let account = bank.account(id).unwrap();
    // the reservation shrank to a remaining amount of 1 and 9 went back to
    // free
    assert_eq!(account.reservations[0].amount, 1);
    assert_eq!(account.reservations[0].committed, 0);
    assert_eq!(account.free, 9);
    assert_eq!(account.reserved, 1);
}

#[test]
fn designated_owner_controller_gates_callers() {
    let owner_controller = WithdrawalPermissions::DesignatedOwner(1u64);
    let (mut bank, _external, registry, id) = bank_with_account(10, owner_controller);
    let reason = Vec::<u8>::new();
    assert_eq!(
        bank.reserve_spend_for_bank_account(&registry, 2, id, reason.clone(), 5, owner_controller),
        Err(BankError::Unauthorized)
    );
    assert_eq!(
        bank.reserve_spend_for_bank_account(&registry, 1, id, reason.clone(), 5, owner_controller),
        Ok(1)
    );
    assert_eq!(bank.account(id).unwrap().free, 5);
}

#[test]
fn registration_debits_and_checks_external_balance() {
    let mut external = ExternalBalances::new();
    external.set_balance(1, 100);
    external.set_balance(5, 10);
    let mut registry = OrgRegistry::new();
    registry.register_flat_organization(b"build cool shit".to_vec(), vec![1, 2, 3, 4, 5, 6]);
    let mut bank = Bank::new(5);
    let controller = WithdrawalPermissions::DesignatedOwner(5u64);
    // address 5 can just afford the seed
    assert_eq!(
        bank.register_and_seed_for_bank_account(&mut external, &registry, 5, 10, 1, controller),
        Ok(OnChainTreasuryID(1))
    );
    assert_eq!(external.balance(5), 0);
    // a further deposit no longer fits the external balance
    assert_eq!(
        bank.deposit_from_signer_for_bank_account(
            &mut external,
            5,
            OnChainTreasuryID(1),
            1,
            Vec::new()
        ),
        Err(BankError::InsufficientCallerBalance)
    );
    // a second registration by the drained address fails the same way
    assert_eq!(
        bank.register_and_seed_for_bank_account(&mut external, &registry, 5, 10, 1, controller),
        Err(BankError::InsufficientCallerBalance)
    );
}

#[test]
fn treasury_ids_are_sequential() {
    let mut external = ExternalBalances::new();
    external.set_balance(1, 100);
    let mut registry = OrgRegistry::new();
    registry.register_flat_organization(b"build cool shit".to_vec(), vec![1, 2, 3]);
    let mut bank = Bank::new(5);
    let controller = WithdrawalPermissions::DesignatedOwner(1u64);
    assert_eq!(
        bank.register_and_seed_for_bank_account(&mut external, &registry, 1, 10, 1, controller),
        Ok(OnChainTreasuryID(1))
    );
    assert_eq!(
        bank.register_and_seed_for_bank_account(&mut external, &registry, 1, 10, 1, controller),
        Ok(OnChainTreasuryID(2))
    );
    assert_eq!(OnChainTreasuryID::default(), OnChainTreasuryID(0));
    assert_eq!(OnChainTreasuryID(0).iterate(), OnChainTreasuryID(1));
    // the two accounts are independent
    assert_eq!(bank.account(OnChainTreasuryID(1)).unwrap().free, 10);
    assert_eq!(bank.account(OnChainTreasuryID(2)).unwrap().free, 10);
    assert!(bank.account(OnChainTreasuryID(3)).is_none());
    assert_eq!(external.balance(1), 80);
}

#[test]
fn registering_a_group_needs_the_organization() {
    let mut registry = OrgRegistry::new();
    assert_eq!(
        registry.register_inner_weighted_share_group(1, vec![(1, 5)]),
        Err(BankError::OrganizationNotFound)
    );
    registry.register_flat_organization(b"build cool shit".to_vec(), vec![1, 2]);
    assert_eq!(registry.register_inner_weighted_share_group(1, vec![(1, 5)]), Ok(1));
    assert_eq!(registry.register_inner_weighted_share_group(1, vec![(2, 5)]), Ok(2));
    // a controller against an unregistered organization is rejected at bank
    // registration
    let mut external = ExternalBalances::new();
    external.set_balance(1, 100);
    let mut bank = Bank::new(5);
    assert_eq!(
        bank.register_and_seed_for_bank_account(
            &mut external,
            &registry,
            1,
            10,
            2,
            WithdrawalPermissions::DesignatedOwner(1u64)
        ),
        Err(BankError::GovernanceConfigRejected)
    );
    // so is a share-group controller that belongs to a different organization
    assert_eq!(
        bank.register_and_seed_for_bank_account(
            &mut external,
            &registry,
            1,
            10,
            1,
            WithdrawalPermissions::AnyMemberOfOrgShareGroup(2u32, ShareID::WeightedAtomic(1u32))
        ),
        Err(BankError::GovernanceConfigRejected)
    );
}

#[test]
fn deposit_event_carries_the_reference() {
    let (mut bank, mut external, _registry, id) = bank_with_account(10, weighted_controller());
    let reason = vec![1u8, 7, 3, 8];
    assert_eq!(
        bank.deposit_from_signer_for_bank_account(&mut external, 2, id, 8, reason.clone()),
        Ok(())
    );
    assert_eq!(
        bank.last_event(),
        Some(&BankEvent::CapitalDepositedIntoOnChainBankAccount(2, id, 8, reason))
    );
    assert_eq!(external.balance(2), 90);
    assert_eq!(bank.account(id).unwrap().free, 18);
}

#[test]
fn membership_is_reevaluated_per_group() {
    let mut registry = OrgRegistry::new();
    registry.register_flat_organization(b"build cool shit".to_vec(), vec![1, 2, 3]);
    assert_eq!(registry.register_inner_weighted_share_group(1, vec![(1, 5), (4, 5)]), Ok(1));
    // flat base membership and the weighted group differ
    assert!(registry.is_member_of_group(1, 3));
    assert!(!registry.is_member_of_group(1, 4));
    assert!(registry.is_member(1, ShareID::WeightedAtomic(1), 4));
    assert!(!registry.is_member(1, ShareID::WeightedAtomic(1), 3));
    // membership in a group that does not exist is false
    assert!(!registry.is_member(1, ShareID::WeightedAtomic(2), 1));
    assert!(!registry.is_member(2, ShareID::Flat(1), 1));
    assert!(registry.group_exists(1, ShareID::Flat(1)));
    assert!(!registry.group_exists(1, ShareID::Flat(2)));
}
