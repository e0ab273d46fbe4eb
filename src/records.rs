//! The records kept by the registry and the errors its operations report.
use vstd::prelude::*;

verus! {

/// One lease of an asset. `lease_id` is assigned by the registry, starting at 1.
#[derive(Clone, Debug, PartialEq, Eq)]
pub struct Lease {
    pub lease_id: u64,
    pub asset_id: u64,
    pub owner: String,
    pub lessee: String,
    pub start_time: u64,
    pub end_time: u64,
    /// Informational only: no payment is moved.
    pub payment_amount: u64,
    /// True until the lease is completed or expired; never true again afterwards.
    pub is_active: bool,
}

/// A registered asset that leases can be created against.
#[derive(Clone, Debug, PartialEq, Eq)]
pub struct Asset {
    pub asset_id: u64,
    pub owner: String,
    pub asset_type: String,
    pub description: String,
    /// True exactly when no active lease refers to the asset.
    pub is_available: bool,
}

/// Aggregate counts of leases by state.
#[derive(Clone, Copy, Debug, PartialEq, Eq, Structural)]
pub struct LeaseStatus {
    pub active: u64,
    pub completed: u64,
    pub expired: u64,
    pub total: u64,
}

/// Keys of the records in the ledger's key-value storage.
#[derive(Clone, Copy, Debug, PartialEq, Eq, Structural)]
pub enum LeaseBook {
    Lease(u64),
    Asset(u64),
}

/// What an operation of the registry can report instead of succeeding.
#[derive(Clone, Copy, Debug, PartialEq, Eq, Structural)]
pub enum LeaseError {
    /// No record has the requested ID.
    NotFound,
    /// The lease was already completed or expired; nothing was changed.
    AlreadyTerminal,
    /// The asset is currently leased.
    AssetUnavailable,
    /// An asset with this ID is already registered; it was left as it was.
    AlreadyRegistered,
    /// Stored records contradict each other.
    InvariantViolation,
}

impl LeaseStatus {
    /// The all-zero status of a registry with no leases.
    pub fn zero() -> (r: LeaseStatus)
        ensures
            r == (LeaseStatus { active: 0, completed: 0, expired: 0, total: 0 }),
    {
        LeaseStatus { active: 0, completed: 0, expired: 0, total: 0 }
    }

    /// Every lease is counted exactly once.
    pub open spec fn balanced(&self) -> bool {
        self.total == self.active + self.completed + self.expired
    }
}

impl Lease {
    /// A field-by-field copy.
    pub fn duplicate(&self) -> (r: Lease)
        ensures
            r == *self,
    {
        Lease {
            lease_id: self.lease_id,
            asset_id: self.asset_id,
            owner: self.owner.clone(),
            lessee: self.lessee.clone(),
            start_time: self.start_time,
            end_time: self.end_time,
            payment_amount: self.payment_amount,
            is_active: self.is_active,
        }
    }
}

impl Asset {
    /// A field-by-field copy.
    pub fn duplicate(&self) -> (r: Asset)
        ensures
            r == *self,
    {
        Asset {
            asset_id: self.asset_id,
            owner: self.owner.clone(),
            asset_type: self.asset_type.clone(),
            description: self.description.clone(),
            is_available: self.is_available,
        }
    }
}

/// The number of active leases in `s`.
pub open spec fn count_active(s: Seq<Lease>) -> nat
    decreases s.len(),
{
    if s.len() == 0 {
        0
    } else {
        count_active(s.drop_last()) + if s.last().is_active {
            1nat
        } else {
            0nat
        }
    }
}

/// Whether some active lease in `s` refers to asset `asset_id`.
pub open spec fn has_active_lease(s: Seq<Lease>, asset_id: u64) -> bool {
    exists|i: int| 0 <= i < s.len() && #[trigger] s[i].is_active && s[i].asset_id == asset_id
}

/// Appending a lease adds one to the count exactly when it is active.
pub proof fn lemma_count_active_push(s: Seq<Lease>, l: Lease)
    ensures
        count_active(s.push(l)) == count_active(s) + if l.is_active {
            1nat
        } else {
            0nat
        },
{
    assert(s.push(l).drop_last() =~= s);
}

/// No more leases are active than there are leases.
pub proof fn lemma_count_active_bound(s: Seq<Lease>)
    ensures
        count_active(s) <= s.len(),
    decreases s.len(),
{
    if s.len() > 0 {
        lemma_count_active_bound(s.drop_last());
    }
}

/// Ending the active lease at `i` lowers the count by one.
pub proof fn lemma_count_active_end(s: Seq<Lease>, i: int, l: Lease)
    requires
        0 <= i < s.len(),
        s[i].is_active,
        !l.is_active,
    ensures
        count_active(s.update(i, l)) + 1 == count_active(s),
    decreases s.len(),
{
    let t = s.update(i, l);
    if i == s.len() - 1 {
        assert(t.drop_last() =~= s.drop_last());
    } else {
        assert(t.drop_last() =~= s.drop_last().update(i, l));
        lemma_count_active_end(s.drop_last(), i, l);
    }
}

/// The assets of `s` keyed by ID; a later record of an ID replaces an
/// earlier one.
pub open spec fn assets_by_id(s: Seq<Asset>) -> Map<u64, Asset>
    decreases s.len(),
{
    if s.len() == 0 {
        Map::empty()
    } else {
        assets_by_id(s.drop_last()).insert(s.last().asset_id, s.last())
    }
}

/// No two assets of `s` share an ID.
pub open spec fn distinct_asset_ids(s: Seq<Asset>) -> bool {
    forall|i: int, j: int| 0 <= i < j < s.len() ==> s[i].asset_id != s[j].asset_id
}

/// The IDs keyed are the IDs that occur.
pub proof fn lemma_assets_by_id_keys(s: Seq<Asset>, k: u64)
    ensures
        assets_by_id(s).contains_key(k) <==> exists|i: int| 0 <= i < s.len() && #[trigger] s[i].asset_id == k,
    decreases s.len(),
{
    if s.len() > 0 {
        let t = s.drop_last();
        lemma_assets_by_id_keys(t, k);
        if exists|i: int| 0 <= i < t.len() && #[trigger] t[i].asset_id == k {
            let i = choose|i: int| 0 <= i < t.len() && #[trigger] t[i].asset_id == k;
            assert(s[i].asset_id == k);
        }
        if exists|i: int| 0 <= i < s.len() && #[trigger] s[i].asset_id == k {
            let i = choose|i: int| 0 <= i < s.len() && #[trigger] s[i].asset_id == k;
            if i < t.len() {
                assert(t[i].asset_id == k);
            }
        }
    }
}

/// With distinct IDs, each asset is found under its own ID.
pub proof fn lemma_assets_by_id_value(s: Seq<Asset>, i: int)
    requires
        distinct_asset_ids(s),
        0 <= i < s.len(),
    ensures
        assets_by_id(s).contains_key(s[i].asset_id),
        assets_by_id(s)[s[i].asset_id] == s[i],
    decreases s.len(),
{
    let t = s.drop_last();
    if i < t.len() {
        assert(distinct_asset_ids(t));
        lemma_assets_by_id_value(t, i);
        assert(s[i].asset_id != s.last().asset_id);
    }
}

} // verus!
