//! The governance gate: a model of the organizational membership registry,
//! and the pure predicates that decide whether a governance configuration is
//! acceptable at registration and whether a caller is authorized to move
//! funds.
//!
//! The registry answers exactly the two questions the ledger asks of its
//! membership collaborator: does a share group exist in an organization, and
//! is an address a member of it. Membership can change between calls, so the
//! ledger re-evaluates the predicates on every operation instead of caching
//! them.

use crate::types::{BankError, ShareID, WithdrawalPermissions};
use vstd::prelude::*;

verus! {

/// One organization: its constitution text and its share groups. Group
/// identifiers of either kind are issued sequentially from 1, so the group
/// registered `g`-th sits at index `g - 1`.
pub struct Organization {
    constitution: Vec<u8>,
    flat_groups: Vec<Vec<u64>>,
    weighted_groups: Vec<Vec<(u64, u64)>>,
}

/// The mathematical shape of an [`Organization`].
#[verifier::ext_equal]
pub struct OrgV {
    pub constitution: Seq<u8>,
    pub flat_groups: Seq<Seq<u64>>,
    pub weighted_groups: Seq<Seq<(u64, u64)>>,
}

impl View for Organization {
    type V = OrgV;

    closed spec fn view(&self) -> OrgV {
        OrgV {
            constitution: self.constitution@,
            flat_groups: self.flat_groups@.map_values(|g: Vec<u64>| g@),
            weighted_groups: self.weighted_groups@.map_values(|g: Vec<(u64, u64)>| g@),
        }
    }
}

/// The membership registry: organizations keyed by sequential identifiers
/// starting at 1, so the organization registered `o`-th sits at index
/// `o - 1`.
pub struct OrgRegistry {
    orgs: Vec<Organization>,
}

impl View for OrgRegistry {
    type V = Seq<OrgV>;

    closed spec fn view(&self) -> Seq<OrgV> {
        self.orgs@.map_values(|o: Organization| o@)
    }
}

/// Whether `org` names a registered organization.
pub open spec fn spec_org_exists(orgs: Seq<OrgV>, org: u32) -> bool {
    1 <= org <= orgs.len()
}

/// The organization registered under `org`.
pub open spec fn spec_org(orgs: Seq<OrgV>, org: u32) -> OrgV {
    orgs[org - 1]
}

/// Whether `share` names a share group registered in organization `org`.
pub open spec fn spec_group_exists(orgs: Seq<OrgV>, org: u32, share: ShareID) -> bool {
    spec_org_exists(orgs, org) && match share {
        ShareID::Flat(g) => 1 <= g <= spec_org(orgs, org).flat_groups.len(),
        ShareID::WeightedAtomic(g) => 1 <= g <= spec_org(orgs, org).weighted_groups.len(),
    }
}

/// Whether `who` is a member of share group `share` of organization `org`.
/// Every holder of a weighted share counts as a member, whatever the weight.
pub open spec fn spec_is_member(orgs: Seq<OrgV>, org: u32, share: ShareID, who: u64) -> bool {
    spec_group_exists(orgs, org, share) && match share {
        ShareID::Flat(g) => spec_org(orgs, org).flat_groups[g - 1].contains(who),
        ShareID::WeightedAtomic(g) => {
            let group = spec_org(orgs, org).weighted_groups[g - 1];
            exists|i: int| 0 <= i < group.len() && (#[trigger] group[i]).0 == who
        },
    }
}

/// Whether `controller` is a real, satisfiable governance configuration for
/// registering a bank account against organization `org`: the organization
/// exists, and a share-group controller references a group that belongs to
/// that very organization and is registered.
pub open spec fn spec_accepts_controller(
    orgs: Seq<OrgV>,
    org: u32,
    controller: WithdrawalPermissions,
) -> bool {
    spec_org_exists(orgs, org) && match controller {
        WithdrawalPermissions::DesignatedOwner(_) => true,
        WithdrawalPermissions::AnyMemberOfOrgShareGroup(o, share) => {
            o == org && spec_group_exists(orgs, o, share)
        },
    }
}

/// Whether `caller` satisfies the permission descriptor `controller`.
pub open spec fn spec_authorizes(
    orgs: Seq<OrgV>,
    caller: u64,
    controller: WithdrawalPermissions,
) -> bool {
    match controller {
        WithdrawalPermissions::DesignatedOwner(owner) => caller == owner,
        WithdrawalPermissions::AnyMemberOfOrgShareGroup(o, share) => (
            spec_is_member(orgs, o, share, caller)
        ),
    }
}

impl Organization {
    /// The constitution text this organization was registered with.
    pub fn constitution(&self) -> (r: &Vec<u8>)
        ensures
            r@ == self@.constitution,
    {
        &self.constitution
    }
}

fn flat_group_contains(group: &Vec<u64>, who: u64) -> (r: bool)
    ensures
        r == group@.contains(who),
{
    let n = group.len();
    for i in 0..n
        invariant
            n == group.len(),
            forall|j: int| 0 <= j < i ==> group@[j] != who,
    {
        if group[i] == who {
            return true;
        }
    }
    false
}

fn weighted_group_contains(group: &Vec<(u64, u64)>, who: u64) -> (r: bool)
    ensures
        r == exists|i: int| 0 <= i < group@.len() && (#[trigger] group@[i]).0 == who,
{
    let n = group.len();
    for i in 0..n
        invariant
            n == group.len(),
            forall|j: int| 0 <= j < i ==> (#[trigger] group@[j]).0 != who,
    {
        if group[i].0 == who {
            return true;
        }
    }
    false
}

impl OrgRegistry {
    /// An empty registry with no organizations.
    pub fn new() -> (r: Self)
        ensures
            r@ == Seq::<OrgV>::empty(),
    {
        OrgRegistry { orgs: Vec::new() }
    }

    /// How many organizations have been registered.
    pub fn organization_counter(&self) -> (r: u32)
        requires
            self@.len() <= u32::MAX,
        ensures
            r == self@.len(),
    {
        self.orgs.len() as u32
    }

    /// The organization registered under `org`, if any.
    pub fn organization(&self, org: u32) -> (r: Option<&Organization>)
        ensures
            spec_org_exists(self@, org) ==> (r matches Some(o) && o@ == spec_org(self@, org)),
            !spec_org_exists(self@, org) ==> r is None,
    {
        if org >= 1 && (org as usize) <= self.orgs.len() {
            Some(&self.orgs[(org - 1) as usize])
        } else {
            None
        }
    }

    /// Registers a new organization with the given constitution and flat
    /// base membership (its flat share group 1), and returns its identifier.
    pub fn register_flat_organization(&mut self, constitution: Vec<u8>, members: Vec<u64>) -> (r:
        u32)
        requires
            old(self)@.len() < u32::MAX,
        ensures
            r == old(self)@.len() + 1,
            final(self)@ == old(self)@.push(
                (OrgV {
                    constitution: constitution@,
                    flat_groups: seq![members@],
                    weighted_groups: Seq::<Seq<(u64, u64)>>::empty(),
                }),
            ),
    {
        let id = self.orgs.len() as u32 + 1;
        let ghost orgs_before = self@;
        let ghost members_view = members@;
        let ghost constitution_view = constitution@;
        let mut flat_groups: Vec<Vec<u64>> = Vec::new();
        flat_groups.push(members);
        let org = Organization { constitution, flat_groups, weighted_groups: Vec::new() };
        self.orgs.push(org);
        proof {
            assert(self@ =~~= orgs_before.push(
                (OrgV {
                    constitution: constitution_view,
                    flat_groups: seq![members_view],
                    weighted_groups: Seq::<Seq<(u64, u64)>>::empty(),
                }),
            ));
        }
        id
    }

    /// Registers a new weighted share group inside organization `org` and
    /// returns the group's identifier; fails when the organization does not
    /// exist.
    pub fn register_inner_weighted_share_group(&mut self, org: u32, group: Vec<(u64, u64)>) -> (r:
        Result<u32, BankError>)
        requires
            spec_org_exists(old(self)@, org) ==> spec_org(old(self)@, org).weighted_groups.len()
                < u32::MAX,
        ensures
            !spec_org_exists(old(self)@, org) ==> r == Err::<u32, BankError>(
                BankError::OrganizationNotFound,
            ) && final(self)@ == old(self)@,
            spec_org_exists(old(self)@, org) ==> {
                &&& r == Ok::<u32, BankError>(
                    (spec_org(old(self)@, org).weighted_groups.len() + 1) as u32,
                )
                &&& final(self)@ == old(self)@.update(
                    org - 1,
                    (OrgV {
                        weighted_groups: spec_org(old(self)@, org).weighted_groups.push(group@),
                        ..spec_org(old(self)@, org)
                    }),
                )
            },
    {
        if org < 1 || (org as usize) > self.orgs.len() {
            return Err(BankError::OrganizationNotFound);
        }
        let idx = (org - 1) as usize;
        let ghost orgs_before = self@;
        let ghost group_view = group@;
        let new_id = self.orgs[idx].weighted_groups.len() as u32 + 1;
        let entry = &mut self.orgs[idx];
        entry.weighted_groups.push(group);
        proof {
            assert(self@ =~~= orgs_before.update(
                org - 1,
                (OrgV {
                    weighted_groups: spec_org(orgs_before, org).weighted_groups.push(group_view),
                    ..spec_org(orgs_before, org)
                }),
            ));
        }
        Ok(new_id)
    }

    /// Whether `who` belongs to the flat base membership (flat share group 1)
    /// of organization `org`.
    pub fn is_member_of_group(&self, org: u32, who: u64) -> (r: bool)
        ensures
            r == spec_is_member(self@, org, ShareID::Flat(1), who),
    {
        self.is_member(org, ShareID::Flat(1), who)
    }

    /// Whether `share` names a registered share group of organization `org`.
    pub fn group_exists(&self, org: u32, share: ShareID) -> (r: bool)
        ensures
            r == spec_group_exists(self@, org, share),
    {
        if org < 1 || (org as usize) > self.orgs.len() {
            return false;
        }
        let entry = &self.orgs[(org - 1) as usize];
        match share {
            ShareID::Flat(g) => g >= 1 && (g as usize) <= entry.flat_groups.len(),
            ShareID::WeightedAtomic(g) => g >= 1 && (g as usize) <= entry.weighted_groups.len(),
        }
    }

    /// Whether `who` is a member of share group `share` of organization
    /// `org`; false when the group does not exist.
    pub fn is_member(&self, org: u32, share: ShareID, who: u64) -> (r: bool)
        ensures
            r == spec_is_member(self@, org, share, who),
    {
        if !self.group_exists(org, share) {
            return false;
        }
        let entry = &self.orgs[(org - 1) as usize];
        proof {
            assert(entry@ == spec_org(self@, org));
        }
        match share {
            ShareID::Flat(g) => {
                let grp = &entry.flat_groups[(g - 1) as usize];
                proof {
                    assert(grp@ == spec_org(self@, org).flat_groups[g - 1]);
                }
                flat_group_contains(grp, who)
            },
            ShareID::WeightedAtomic(g) => {
                let grp = &entry.weighted_groups[(g - 1) as usize];
                proof {
                    assert(grp@ == spec_org(self@, org).weighted_groups[g - 1]);
                }
                weighted_group_contains(grp, who)
            },
        }
    }
}

/// Decides whether a bank account may be registered against organization
/// `org` under the permission descriptor `controller` with the given seed
/// `deposit`: the descriptor must be a satisfiable governance configuration
/// for the organization, and the deposit must reach the module minimum.
pub fn accepts_registration(
    registry: &OrgRegistry,
    org: u32,
    controller: &WithdrawalPermissions,
    deposit: u64,
    min_deposit: u64,
) -> (r: Result<(), BankError>)
    ensures
        !spec_accepts_controller(registry@, org, *controller) ==> r == Err::<(), BankError>(
            BankError::GovernanceConfigRejected,
        ),
        spec_accepts_controller(registry@, org, *controller) && deposit < min_deposit ==> r
            == Err::<(), BankError>(BankError::DepositBelowMinimum),
        spec_accepts_controller(registry@, org, *controller) && deposit >= min_deposit ==> r
            == Ok::<(), BankError>(()),
{
    let acceptable = match controller {
        WithdrawalPermissions::DesignatedOwner(_) => {
            org >= 1 && (org as usize) <= registry.orgs.len()
        },
        WithdrawalPermissions::AnyMemberOfOrgShareGroup(o, share) => {
            *o == org && registry.group_exists(*o, *share)
        },
    };
    if !acceptable {
        Err(BankError::GovernanceConfigRejected)
    } else if deposit < min_deposit {
        Err(BankError::DepositBelowMinimum)
    } else {
        Ok(())
    }
}

/// Whether `caller` satisfies the permission descriptor `controller`,
/// consulting the registry's current membership for share-group controllers.
pub fn authorizes_spend(
    registry: &OrgRegistry,
    caller: u64,
    controller: &WithdrawalPermissions,
) -> (r: bool)
    ensures
        r == spec_authorizes(registry@, caller, *controller),
{
    match controller {
        WithdrawalPermissions::DesignatedOwner(owner) => caller == *owner,
        WithdrawalPermissions::AnyMemberOfOrgShareGroup(o, share) => (
            registry.is_member(*o, *share, caller)
        ),
    }
}

} // verus!
