//! The lease registry: leases indexed by ID, assets keyed by ID, and the
//! aggregate status, kept consistent by every operation.
use std::collections::{HashMap, HashSet};
use vstd::prelude::*;
use crate::records::{
    assets_by_id, count_active, distinct_asset_ids, has_active_lease, lemma_assets_by_id_keys,
    lemma_assets_by_id_value, lemma_count_active_bound, lemma_count_active_end,
    lemma_count_active_push, Asset, Lease, LeaseError, LeaseStatus,
};

verus! {

broadcast use vstd::std_specs::hash::group_hash_axioms;

/// The abstract state of a registry.
pub struct RegistryModel {
    /// The lease with ID `i + 1` stands at index `i`.
    pub leases: Seq<Lease>,
    /// Registered assets, by asset ID.
    pub assets: Map<u64, Asset>,
    pub status: LeaseStatus,
}

impl RegistryModel {
    /// The ID that the next lease receives.
    pub open spec fn next_id(&self) -> int {
        self.leases.len() + 1int
    }

    /// Whether a lease with ID `lease_id` has been created.
    pub open spec fn has_lease(&self, lease_id: u64) -> bool {
        1 <= lease_id <= self.leases.len()
    }

    /// The lease with ID `lease_id`, when `has_lease(lease_id)` holds.
    pub open spec fn lease(&self, lease_id: u64) -> Lease {
        self.leases[lease_id - 1]
    }

    /// What viewing lease `lease_id` gives.
    pub open spec fn view_lease(&self, lease_id: u64) -> Result<Lease, LeaseError> {
        if self.has_lease(lease_id) {
            Ok(self.lease(lease_id))
        } else {
            Err(LeaseError::NotFound)
        }
    }

    /// What viewing asset `asset_id` gives.
    pub open spec fn view_asset(&self, asset_id: u64) -> Result<Asset, LeaseError> {
        if self.assets.contains_key(asset_id) {
            Ok(self.assets[asset_id])
        } else {
            Err(LeaseError::NotFound)
        }
    }

    /// Registering an asset: a new ID is added as available; an ID already
    /// registered is refused and nothing changes.
    pub open spec fn register_asset(
        &self,
        asset_id: u64,
        owner: String,
        asset_type: String,
        description: String,
    ) -> (RegistryModel, Result<(), LeaseError>) {
        if self.assets.contains_key(asset_id) {
            (*self, Err(LeaseError::AlreadyRegistered))
        } else {
            (
                RegistryModel {
                    assets: self.assets.insert(
                        asset_id,
                        Asset { asset_id, owner, asset_type, description, is_available: true },
                    ),
                    ..*self
                },
                Ok(()),
            )
        }
    }

    /// Creating a lease: on a registered, available asset the next ID is
    /// taken, an active lease is appended, the asset becomes unavailable,
    /// and `active` and `total` grow by one. Otherwise nothing changes and
    /// the error is `NotFound` (no such asset) or `AssetUnavailable`.
    pub open spec fn create_lease(
        &self,
        asset_id: u64,
        owner: String,
        lessee: String,
        start_time: u64,
        end_time: u64,
        payment_amount: u64,
    ) -> (RegistryModel, Result<u64, LeaseError>) {
        if !self.assets.contains_key(asset_id) {
            (*self, Err(LeaseError::NotFound))
        } else if !self.assets[asset_id].is_available {
            (*self, Err(LeaseError::AssetUnavailable))
        } else {
            let id = self.next_id() as u64;
            (
                RegistryModel {
                    leases: self.leases.push(
                        Lease {
                            lease_id: id,
                            asset_id,
                            owner,
                            lessee,
                            start_time,
                            end_time,
                            payment_amount,
                            is_active: true,
                        },
                    ),
                    assets: self.assets.insert(
                        asset_id,
                        Asset { is_available: false, ..self.assets[asset_id] },
                    ),
                    status: LeaseStatus {
                        active: (self.status.active + 1) as u64,
                        total: (self.status.total + 1) as u64,
                        ..self.status
                    },
                },
                Ok(id),
            )
        }
    }

    /// Ending lease `lease_id`, counted as completed when `completed` holds
    /// and as expired otherwise. An active lease turns inactive, its asset
    /// available, and one lease moves from `active` to the matching counter.
    /// A lease that does not exist gives `NotFound`; one already ended gives
    /// `AlreadyTerminal`; on both nothing changes.
    pub open spec fn end_lease(&self, lease_id: u64, completed: bool) -> (RegistryModel, Result<(), LeaseError>) {
        if !self.has_lease(lease_id) {
            (*self, Err(LeaseError::NotFound))
        } else if !self.lease(lease_id).is_active {
            (*self, Err(LeaseError::AlreadyTerminal))
        } else {
            let l = self.lease(lease_id);
            (
                RegistryModel {
                    leases: self.leases.update(lease_id - 1, Lease { is_active: false, ..l }),
                    assets: self.assets.insert(
                        l.asset_id,
                        Asset { is_available: true, ..self.assets[l.asset_id] },
                    ),
                    status: if completed {
                        LeaseStatus {
                            active: (self.status.active - 1) as u64,
                            completed: (self.status.completed + 1) as u64,
                            ..self.status
                        }
                    } else {
                        LeaseStatus {
                            active: (self.status.active - 1) as u64,
                            expired: (self.status.expired + 1) as u64,
                            ..self.status
                        }
                    },
                },
                Ok(()),
            )
        }
    }

    /// The consistency conditions that every operation keeps.
    pub open spec fn inv(&self) -> bool {
        &&& self.leases.len() <= u64::MAX
        &&& forall|i: int| 0 <= i < self.leases.len() ==> #[trigger] self.leases[i].lease_id == i + 1
        &&& self.status.total == self.leases.len()
        &&& self.status.active == count_active(self.leases)
        &&& self.status.balanced()
        &&& forall|k: u64| #[trigger]
            self.assets.contains_key(k) ==> self.assets[k].asset_id == k
                && (self.assets[k].is_available <==> !has_active_lease(self.leases, k))
        &&& forall|i: int|
            0 <= i < self.leases.len() ==> self.assets.contains_key(#[trigger] self.leases[i].asset_id)
        &&& forall|i: int, j: int|
            0 <= i < self.leases.len() && 0 <= j < self.leases.len() && #[trigger] self.leases[i].is_active
                && #[trigger] self.leases[j].is_active && self.leases[i].asset_id
                == self.leases[j].asset_id ==> i == j
    }
}

/// Whether stored records form a registry: asset IDs are distinct and the
/// records, with the assets keyed by ID, meet the registry's conditions.
pub open spec fn consistent(leases: Seq<Lease>, assets: Seq<Asset>, status: LeaseStatus) -> bool {
    &&& distinct_asset_ids(assets)
    &&& (RegistryModel { leases, assets: assets_by_id(assets), status }).inv()
}

/// A registry of assets and of the leases made on them.
pub struct LandRegistryContract {
    leases: Vec<Lease>,
    assets: HashMap<u64, Asset>,
    status: LeaseStatus,
}

impl View for LandRegistryContract {
    type V = RegistryModel;

    closed spec fn view(&self) -> RegistryModel {
        RegistryModel { leases: self.leases@, assets: self.assets@, status: self.status }
    }
}

impl LandRegistryContract {
    /// Every registry that this library hands out meets its model's conditions.
    pub open spec fn wf(&self) -> bool {
        self@.inv()
    }

    /// An empty registry: no assets, no leases, all counters zero.
    pub fn new() -> (r: LandRegistryContract)
        ensures
            r.wf(),
            r@.leases.len() == 0,
            r@.assets == Map::<u64, Asset>::empty(),
            r@.status == (LeaseStatus { active: 0, completed: 0, expired: 0, total: 0 }),
    {
        let r = LandRegistryContract { leases: Vec::new(), assets: HashMap::new(), status: LeaseStatus::zero() };
        proof {
            assert(r@.assets =~= Map::<u64, Asset>::empty());
        }
        r
    }

    /// The aggregate status of all leases.
    pub fn view_all_lease_status(&self) -> (r: LeaseStatus)
        ensures
            r == self@.status,
    {
        self.status
    }

    /// The lease with ID `lease_id`, or `NotFound` if no lease has it.
    pub fn view_lease(&self, lease_id: u64) -> (r: Result<Lease, LeaseError>)
        ensures
            r == self@.view_lease(lease_id),
    {
        if lease_id == 0 || lease_id > self.leases.len() as u64 {
            Err(LeaseError::NotFound)
        } else {
            Ok(self.leases[(lease_id - 1) as usize].duplicate())
        }
    }

    /// The asset with ID `asset_id`, or `NotFound` if none is registered.
    pub fn view_asset(&self, asset_id: u64) -> (r: Result<Asset, LeaseError>)
        ensures
            r == self@.view_asset(asset_id),
    {
        match self.assets.get(&asset_id) {
            Some(a) => Ok(a.duplicate()),
            None => Err(LeaseError::NotFound),
        }
    }

    /// Registers a new, available asset. An ID that is already registered
    /// is refused with `AlreadyRegistered` and the registry is left as it was.
    pub fn register_asset(
        &mut self,
        asset_id: u64,
        owner: String,
        asset_type: String,
        description: String,
    ) -> (r: Result<(), LeaseError>)
        requires
            old(self).wf(),
        ensures
            final(self).wf(),
            (final(self)@, r) == old(self)@.register_asset(asset_id, owner, asset_type, description),
    {
        if self.assets.contains_key(&asset_id) {
            return Err(LeaseError::AlreadyRegistered);
        }
        let asset = Asset { asset_id, owner, asset_type, description, is_available: true };
        self.assets.insert(asset_id, asset);
        proof {
            let m = self@;
            assert forall|k: u64| #[trigger] m.assets.contains_key(k) implies m.assets[k].asset_id == k
                && (m.assets[k].is_available <==> !has_active_lease(m.leases, k)) by {
                if k == asset_id {
                    if has_active_lease(m.leases, k) {
                        let i = choose|i: int|
                            0 <= i < m.leases.len() && #[trigger] m.leases[i].is_active
                                && m.leases[i].asset_id == k;
                        assert(old(self)@.assets.contains_key(m.leases[i].asset_id));
                    }
                } else {
                    assert(old(self)@.assets.contains_key(k));
                    assert(m.assets[k] == old(self)@.assets[k]);
                }
            }
        }
        Ok(())
    }

    /// Creates an active lease on an available asset, marks the asset as
    /// leased, counts the lease as active, and returns its ID: one more than
    /// the ID of the previous lease, 1 for the first. An asset that is not
    /// registered gives `NotFound`, one that is leased `AssetUnavailable`; on
    /// an error nothing changes.
    pub fn create_lease(
        &mut self,
        asset_id: u64,
        owner: String,
        lessee: String,
        start_time: u64,
        end_time: u64,
        payment_amount: u64,
    ) -> (r: Result<u64, LeaseError>)
        requires
            old(self).wf(),
            old(self)@.leases.len() < u64::MAX,
        ensures
            final(self).wf(),
            (final(self)@, r) == old(self)@.create_lease(
                asset_id,
                owner,
                lessee,
                start_time,
                end_time,
                payment_amount,
            ),
    {
        let asset = match self.assets.get(&asset_id) {
            None => return Err(LeaseError::NotFound),
            Some(a) => a,
        };
        if !asset.is_available {
            return Err(LeaseError::AssetUnavailable);
        }
        let leased = Asset {
            asset_id: asset.asset_id,
            owner: asset.owner.clone(),
            asset_type: asset.asset_type.clone(),
            description: asset.description.clone(),
            is_available: false,
        };
        proof {
            lemma_count_active_bound(self.leases@);
        }
        let lease_id: u64 = self.leases.len() as u64 + 1;
        let lease = Lease {
            lease_id,
            asset_id,
            owner,
            lessee,
            start_time,
            end_time,
            payment_amount,
            is_active: true,
        };
        let ghost pre = self@;
        self.leases.push(lease);
        self.assets.insert(asset_id, leased);
        self.status = LeaseStatus {
            active: self.status.active + 1,
            completed: self.status.completed,
            expired: self.status.expired,
            total: self.status.total + 1,
        };
        proof {
            let m = self@;
            lemma_count_active_push(pre.leases, m.leases.last());
            assert(m.leases[pre.leases.len() as int].is_active);
            assert forall|k: u64| #[trigger] m.assets.contains_key(k) implies m.assets[k].asset_id == k
                && (m.assets[k].is_available <==> !has_active_lease(m.leases, k)) by {
                if k == asset_id {
                    assert(pre.assets.contains_key(k));
                    assert(m.leases[pre.leases.len() as int].asset_id == k);
                } else {
                    assert(pre.assets.contains_key(k));
                    assert(m.assets[k] == pre.assets[k]);
                    if has_active_lease(m.leases, k) {
                        let i = choose|i: int|
                            0 <= i < m.leases.len() && #[trigger] m.leases[i].is_active
                                && m.leases[i].asset_id == k;
                        assert(pre.leases[i].is_active);
                    }
                    if has_active_lease(pre.leases, k) {
                        let i = choose|i: int|
                            0 <= i < pre.leases.len() && #[trigger] pre.leases[i].is_active
                                && pre.leases[i].asset_id == k;
                        assert(m.leases[i].is_active);
                    }
                }
            }
            assert forall|i: int, j: int|
                0 <= i < m.leases.len() && 0 <= j < m.leases.len() && #[trigger] m.leases[i].is_active
                    && #[trigger] m.leases[j].is_active && m.leases[i].asset_id
                    == m.leases[j].asset_id implies i == j by {
                let n = pre.leases.len() as int;
                if i < n && j == n {
                    assert(pre.leases[i].is_active);
                    assert(has_active_lease(pre.leases, asset_id));
                }
                if j < n && i == n {
                    assert(pre.leases[j].is_active);
                    assert(has_active_lease(pre.leases, asset_id));
                }
                if i < n && j < n {
                    assert(pre.leases[i].is_active && pre.leases[j].is_active);
                }
            }
        }
        Ok(lease_id)
    }
    /// Marks the lease as completed. A lease that does not exist gives
    /// `NotFound`; one already completed or expired gives `AlreadyTerminal`
    /// and changes nothing.
    pub fn complete_lease(&mut self, lease_id: u64) -> (r: Result<(), LeaseError>)
        requires
            old(self).wf(),
        ensures
            final(self).wf(),
            (final(self)@, r) == old(self)@.end_lease(lease_id, true),
    {
        self.end(lease_id, true)
    }

    /// Marks the lease as expired. A lease that does not exist gives
    /// `NotFound`; one already completed or expired gives `AlreadyTerminal`
    /// and changes nothing.
    pub fn expire_lease(&mut self, lease_id: u64) -> (r: Result<(), LeaseError>)
        requires
            old(self).wf(),
        ensures
            final(self).wf(),
            (final(self)@, r) == old(self)@.end_lease(lease_id, false),
    {
        self.end(lease_id, false)
    }

    /// Ends the lease, counted as completed or as expired.
    fn end(&mut self, lease_id: u64, completed: bool) -> (r: Result<(), LeaseError>)
        requires
            old(self).wf(),
        ensures
            final(self).wf(),
            (final(self)@, r) == old(self)@.end_lease(lease_id, completed),
    {
        if lease_id == 0 || lease_id > self.leases.len() as u64 {
            return Err(LeaseError::NotFound);
        }
        let idx = (lease_id - 1) as usize;
        if !self.leases[idx].is_active {
            return Err(LeaseError::AlreadyTerminal);
        }
        let ghost pre = self@;
        let asset_id = self.leases[idx].asset_id;
        assert(pre.assets.contains_key(pre.leases[idx as int].asset_id));
        let asset = self.assets.get(&asset_id).unwrap();
        let freed = Asset {
            asset_id: asset.asset_id,
            owner: asset.owner.clone(),
            asset_type: asset.asset_type.clone(),
            description: asset.description.clone(),
            is_available: true,
        };
        let mut ended = self.leases[idx].duplicate();
        ended.is_active = false;
        self.leases.set(idx, ended);
        self.assets.insert(asset_id, freed);
        proof {
            lemma_count_active_end(pre.leases, idx as int, ended);
        }
        if completed {
            self.status = LeaseStatus {
                active: self.status.active - 1,
                completed: self.status.completed + 1,
                expired: self.status.expired,
                total: self.status.total,
            };
        } else {
            self.status = LeaseStatus {
                active: self.status.active - 1,
                completed: self.status.completed,
                expired: self.status.expired + 1,
                total: self.status.total,
            };
        }
        proof {
            let m = self@;
            let n = idx as int;
            assert(m.leases =~= pre.end_lease(lease_id, completed).0.leases);
            assert forall|k: u64| #[trigger] m.assets.contains_key(k) implies m.assets[k].asset_id == k
                && (m.assets[k].is_available <==> !has_active_lease(m.leases, k)) by {
                if has_active_lease(m.leases, k) {
                    let i = choose|i: int|
                        0 <= i < m.leases.len() && #[trigger] m.leases[i].is_active
                            && m.leases[i].asset_id == k;
                    assert(pre.leases[i].is_active);
                    assert(pre.leases[n].is_active);
                }
                if k != asset_id && has_active_lease(pre.leases, k) {
                    let i = choose|i: int|
                        0 <= i < pre.leases.len() && #[trigger] pre.leases[i].is_active
                            && pre.leases[i].asset_id == k;
                    assert(m.leases[i].is_active);
                }
            }
            assert forall|i: int, j: int|
                0 <= i < m.leases.len() && 0 <= j < m.leases.len() && #[trigger] m.leases[i].is_active
                    && #[trigger] m.leases[j].is_active && m.leases[i].asset_id
                    == m.leases[j].asset_id implies i == j by {
                assert(pre.leases[i].is_active && pre.leases[j].is_active);
            }
        }
        Ok(())
    }
    /// Rebuilds a registry from stored records: the leases in ID order, the
    /// assets, and the aggregate status. Records that contradict each other
    /// (see `consistent`) give `InvariantViolation`.
    pub fn restore(leases: Vec<Lease>, assets: Vec<Asset>, status: LeaseStatus) -> (r: Result<
        LandRegistryContract,
        LeaseError,
    >)
        ensures
            consistent(leases@, assets@, status) <==> r is Ok,
            r is Ok ==> r->Ok_0.wf() && r->Ok_0@ == (RegistryModel {
                leases: leases@,
                assets: assets_by_id(assets@),
                status,
            }),
            r is Err ==> r->Err_0 == LeaseError::InvariantViolation,
    {
        let mut by_id: HashMap<u64, Asset> = HashMap::new();
        let mut i: usize = 0;
        while i < assets.len()
            invariant
                0 <= i <= assets.len(),
                by_id@ == assets_by_id(assets@.take(i as int)),
                distinct_asset_ids(assets@.take(i as int)),
            decreases assets.len() - i,
        {
            let id = assets[i].asset_id;
            if by_id.contains_key(&id) {
                proof {
                    lemma_assets_by_id_keys(assets@.take(i as int), id);
                    let j = choose|j: int|
                        0 <= j < i && #[trigger] assets@.take(i as int)[j].asset_id == id;
                    assert(assets@[j].asset_id == assets@[i as int].asset_id);
                }
                return Err(LeaseError::InvariantViolation);
            }
            by_id.insert(id, assets[i].duplicate());
            proof {
                let t = assets@.take(i as int + 1);
                assert(t.drop_last() =~= assets@.take(i as int));
                assert forall|a: int, b: int| 0 <= a < b < t.len() implies t[a].asset_id != t[b].asset_id by {
                    if b == i {
                        lemma_assets_by_id_keys(assets@.take(i as int), id);
                        assert(assets@.take(i as int)[a].asset_id == t[a].asset_id);
                    } else {
                        assert(assets@.take(i as int)[a] == t[a] && assets@.take(i as int)[b] == t[b]);
                    }
                }
            }
            i = i + 1;
        }
        assert(assets@.take(assets.len() as int) =~= assets@);

        let mut leased: HashSet<u64> = HashSet::new();
        let mut n_active: u64 = 0;
        let mut i: usize = 0;
        while i < leases.len()
            invariant
                0 <= i <= leases.len(),
                distinct_asset_ids(assets@),
                by_id@ == assets_by_id(assets@),
                forall|j: int| 0 <= j < i ==> #[trigger] leases@[j].lease_id == j + 1,
                forall|j: int| 0 <= j < i ==> by_id@.contains_key(#[trigger] leases@[j].asset_id),
                n_active == count_active(leases@.take(i as int)),
                n_active <= i,
                forall|k: u64| #[trigger] leased@.contains(k) <==> has_active_lease(leases@.take(i as int), k),
                forall|a: int, b: int|
                    0 <= a < i && 0 <= b < i && #[trigger] leases@[a].is_active
                        && #[trigger] leases@[b].is_active && leases@[a].asset_id
                        == leases@[b].asset_id ==> a == b,
            decreases leases.len() - i,
        {
            let ghost pre = leases@.take(i as int);
            let ghost t = leases@.take(i as int + 1);
            proof {
                assert(t.drop_last() =~= pre);
                assert(t =~= pre.push(leases@[i as int]));
                lemma_count_active_push(pre, leases@[i as int]);
            }
            if leases[i].lease_id != i as u64 + 1 {
                return Err(LeaseError::InvariantViolation);
            }
            let asset_id = leases[i].asset_id;
            if !by_id.contains_key(&asset_id) {
                return Err(LeaseError::InvariantViolation);
            }
            if leases[i].is_active {
                if leased.contains(&asset_id) {
                    proof {
                        let j = choose|j: int|
                            0 <= j < pre.len() && #[trigger] pre[j].is_active && pre[j].asset_id == asset_id;
                        assert(leases@[j].is_active);
                    }
                    return Err(LeaseError::InvariantViolation);
                }
                leased.insert(asset_id);
                n_active = n_active + 1;
            }
            proof {
                assert forall|k: u64| #[trigger] leased@.contains(k) <==> has_active_lease(t, k) by {
                    if has_active_lease(pre, k) {
                        let j = choose|j: int|
                            0 <= j < pre.len() && #[trigger] pre[j].is_active && pre[j].asset_id == k;
                        assert(t[j].is_active);
                    }
                    if has_active_lease(t, k) {
                        let j = choose|j: int|
                            0 <= j < t.len() && #[trigger] t[j].is_active && t[j].asset_id == k;
                        if j < i {
                            assert(pre[j].is_active);
                        }
                    }
                    if leases@[i as int].is_active && k == asset_id {
                        assert(t[i as int].is_active);
                    }
                }
                assert forall|a: int, b: int|
                    0 <= a < i + 1 && 0 <= b < i + 1 && #[trigger] leases@[a].is_active
                        && #[trigger] leases@[b].is_active && leases@[a].asset_id
                        == leases@[b].asset_id implies a == b by {
                    if a < i && b == i {
                        assert(pre[a].is_active);
                    }
                    if b < i && a == i {
                        assert(pre[b].is_active);
                    }
                }
            }
            i = i + 1;
        }
        assert(leases@.take(leases.len() as int) =~= leases@);

        if status.total != leases.len() as u64 || status.active != n_active {
            return Err(LeaseError::InvariantViolation);
        }
        if status.active as u128 + status.completed as u128 + status.expired as u128 != status.total as u128 {
            return Err(LeaseError::InvariantViolation);
        }

        let mut i: usize = 0;
        while i < assets.len()
            invariant
                0 <= i <= assets.len(),
                distinct_asset_ids(assets@),
                by_id@ == assets_by_id(assets@),
                forall|j: int| 0 <= j < leases@.len() ==> #[trigger] leases@[j].lease_id == j + 1,
                forall|j: int| 0 <= j < leases@.len() ==> by_id@.contains_key(#[trigger] leases@[j].asset_id),
                status.total == leases@.len(),
                status.active == count_active(leases@),
                status.balanced(),
                forall|a: int, b: int|
                    0 <= a < leases@.len() && 0 <= b < leases@.len() && #[trigger] leases@[a].is_active
                        && #[trigger] leases@[b].is_active && leases@[a].asset_id
                        == leases@[b].asset_id ==> a == b,
                forall|k: u64| #[trigger] leased@.contains(k) <==> has_active_lease(leases@, k),
                forall|j: int|
                    0 <= j < i ==> (#[trigger] assets@[j].is_available <==> !has_active_lease(
                        leases@,
                        assets@[j].asset_id,
                    )),
            decreases assets.len() - i,
        {
            if assets[i].is_available == leased.contains(&assets[i].asset_id) {
                proof {
                    let k = assets@[i as int].asset_id;
                    lemma_assets_by_id_value(assets@, i as int);
                    assert(leased@.contains(k) <==> has_active_lease(leases@, k));
                    let m = RegistryModel { leases: leases@, assets: assets_by_id(assets@), status };
                    if consistent(leases@, assets@, status) {
                        assert(m.inv());
                        assert(m.assets.contains_key(k));
                        assert(m.assets[k].is_available <==> !has_active_lease(m.leases, k));
                        assert(false);
                    }
                }
                return Err(LeaseError::InvariantViolation);
            }
            i = i + 1;
        }
        let r = LandRegistryContract { leases, assets: by_id, status };
        proof {
            let m = r@;
            assert forall|k: u64| #[trigger] m.assets.contains_key(k) implies m.assets[k].asset_id == k
                && (m.assets[k].is_available <==> !has_active_lease(m.leases, k)) by {
                lemma_assets_by_id_keys(assets@, k);
                let j = choose|j: int| 0 <= j < assets@.len() && #[trigger] assets@[j].asset_id == k;
                lemma_assets_by_id_value(assets@, j);
                assert(assets@[j].is_available <==> !has_active_lease(leases@, assets@[j].asset_id));
            }
        }
        Ok(r)
    }
}

} // verus!
