//! Properties that relate several operations of the registry, proved over
//! the model that the operations' contracts are stated in.
use vstd::prelude::*;
use crate::records::{count_active, lemma_count_active_bound, LeaseError};
use crate::registry::RegistryModel;

verus! {

/// The terms of one lease request: asset, owner, lessee, start time, end
/// time and payment amount.
pub type LeaseTerms = (u64, String, String, u64, u64, u64);

/// The state after the requests `reqs` are made in order, and the IDs that
/// the successful ones returned.
pub open spec fn run_creates(m: RegistryModel, reqs: Seq<LeaseTerms>) -> (RegistryModel, Seq<u64>)
    decreases reqs.len(),
{
    if reqs.len() == 0 {
        (m, Seq::empty())
    } else {
        let t = reqs[0];
        let (m1, r) = m.create_lease(t.0, t.1, t.2, t.3, t.4, t.5);
        let (m2, ids) = run_creates(m1, reqs.drop_first());
        (
            m2,
            match r {
                Ok(id) => seq![id] + ids,
                Err(_) => ids,
            },
        )
    }
}

/// Over any sequence of lease requests, the IDs returned count up by one
/// from the ID after the last lease already made: from a registry without
/// leases they are 1, 2, 3, ...
pub proof fn lemma_lease_ids_consecutive(m: RegistryModel, reqs: Seq<LeaseTerms>)
    requires
        m.leases.len() + reqs.len() <= u64::MAX,
    ensures
        forall|k: int|
            0 <= k < run_creates(m, reqs).1.len() ==> #[trigger] run_creates(m, reqs).1[k] == m.leases.len()
                + k + 1,
        run_creates(m, reqs).0.leases.len() == m.leases.len() + run_creates(m, reqs).1.len(),
    decreases reqs.len(),
{
    if reqs.len() > 0 {
        let t = reqs[0];
        let (m1, r) = m.create_lease(t.0, t.1, t.2, t.3, t.4, t.5);
        lemma_lease_ids_consecutive(m1, reqs.drop_first());
        let ids = run_creates(m1, reqs.drop_first()).1;
        if r is Ok {
            assert forall|k: int| 0 <= k < run_creates(m, reqs).1.len() implies #[trigger] run_creates(
                m,
                reqs,
            ).1[k] == m.leases.len() + k + 1 by {
                if k > 0 {
                    assert(run_creates(m, reqs).1[k] == ids[k - 1]);
                }
            }
        }
    }
}

/// A successful lease creation keeps every lease counted once and adds
/// exactly one to `active` and to `total`; a refused one changes no counter.
pub proof fn lemma_create_counts(
    m: RegistryModel,
    asset_id: u64,
    owner: String,
    lessee: String,
    start_time: u64,
    end_time: u64,
    payment_amount: u64,
)
    requires
        m.inv(),
        m.leases.len() < u64::MAX,
    ensures
        ({
            let (m1, r) = m.create_lease(asset_id, owner, lessee, start_time, end_time, payment_amount);
            &&& m1.status.balanced()
            &&& r is Ok ==> m1.status.active == m.status.active + 1 && m1.status.total
                == m.status.total + 1 && m1.status.completed == m.status.completed
                && m1.status.expired == m.status.expired
            &&& r is Err ==> m1.status == m.status
        }),
{
    lemma_count_active_bound(m.leases);
    assert(count_active(m.leases) == m.status.active);
}

/// Once a lease has been completed or expired, completing or expiring it
/// again reports `AlreadyTerminal` and changes nothing, counters included.
pub proof fn lemma_second_end_is_noop(m: RegistryModel, lease_id: u64, first: bool, second: bool)
    requires
        m.has_lease(lease_id),
    ensures
        ({
            let (m1, r1) = m.end_lease(lease_id, first);
            let (m2, r2) = m1.end_lease(lease_id, second);
            &&& r1 is Ok || r1 == Err::<(), LeaseError>(LeaseError::AlreadyTerminal)
            &&& r2 == Err::<(), LeaseError>(LeaseError::AlreadyTerminal)
            &&& m2 == m1
        }),
{
}

/// Viewing an ID that no lease was given reports `NotFound`; viewing one
/// that was gives the lease that carries that ID, never a zero-valued record.
pub proof fn lemma_view_unknown_lease(m: RegistryModel, lease_id: u64)
    requires
        m.inv(),
    ensures
        lease_id == 0 || lease_id >= m.next_id() ==> m.view_lease(lease_id) == Err::<
            crate::records::Lease,
            LeaseError,
        >(LeaseError::NotFound),
        1 <= lease_id < m.next_id() ==> m.view_lease(lease_id) is Ok && m.view_lease(
            lease_id,
        )->Ok_0.lease_id == lease_id,
{
    if 1 <= lease_id < m.next_id() {
        assert(m.leases[lease_id - 1].lease_id == lease_id);
    }
}

/// A lease request on an asset that is leased is refused with
/// `AssetUnavailable` and leaves the whole registry, counters included, as
/// it was.
pub proof fn lemma_unavailable_asset_rejected(
    m: RegistryModel,
    asset_id: u64,
    owner: String,
    lessee: String,
    start_time: u64,
    end_time: u64,
    payment_amount: u64,
)
    requires
        m.assets.contains_key(asset_id),
        !m.assets[asset_id].is_available,
    ensures
        m.create_lease(asset_id, owner, lessee, start_time, end_time, payment_amount) == (
        m,
        Err::<u64, LeaseError>(LeaseError::AssetUnavailable),
        ),
{
}

} // verus!
