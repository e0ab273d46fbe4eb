use land_registry::{LandRegistryContract, LeaseError, LeaseStatus};

fn status(active: u64, completed: u64, expired: u64, total: u64) -> LeaseStatus {
    LeaseStatus { active, completed, expired, total }
}

fn registry_with_asset(asset_id: u64) -> LandRegistryContract {
    let mut r = LandRegistryContract::new();
    assert_eq!(
        r.register_asset(asset_id, "A-owner".to_string(), "land".to_string(), "plot".to_string()),
        Ok(())
    );
    r
}

#[test]
fn lease_lifecycle_scenario() {
    let mut r = registry_with_asset(1);
    let id = r.create_lease(1, "O".to_string(), "L".to_string(), 100, 200, 50);
    assert_eq!(id, Ok(1));
    assert!(!r.view_asset(1).unwrap().is_available);
    assert_eq!(r.view_all_lease_status(), status(1, 0, 0, 1));

    assert_eq!(r.complete_lease(1), Ok(()));
    assert!(!r.view_lease(1).unwrap().is_active);
    assert!(r.view_asset(1).unwrap().is_available);
    assert_eq!(r.view_all_lease_status(), status(0, 1, 0, 1));

    assert_eq!(r.complete_lease(1), Err(LeaseError::AlreadyTerminal));
    assert_eq!(r.view_all_lease_status(), status(0, 1, 0, 1));
}

#[test]
fn new_registry_is_empty() {
    let r = LandRegistryContract::new();
    assert_eq!(r.view_all_lease_status(), status(0, 0, 0, 0));
    assert_eq!(r.view_lease(1), Err(LeaseError::NotFound));
    assert_eq!(r.view_asset(1), Err(LeaseError::NotFound));
}

#[test]
fn lease_ids_count_up_from_one() {
    let mut r = registry_with_asset(1);
    r.register_asset(2, "B".to_string(), "land".to_string(), "field".to_string()).unwrap();
    r.register_asset(3, "C".to_string(), "land".to_string(), "lot".to_string()).unwrap();
    assert_eq!(r.create_lease(1, "O".to_string(), "L".to_string(), 1, 2, 3), Ok(1));
    // a refused request takes no ID
    assert_eq!(
        r.create_lease(1, "O".to_string(), "L".to_string(), 1, 2, 3),
        Err(LeaseError::AssetUnavailable)
    );
    assert_eq!(r.create_lease(2, "O".to_string(), "L".to_string(), 1, 2, 3), Ok(2));
    assert_eq!(r.create_lease(3, "O".to_string(), "L".to_string(), 1, 2, 3), Ok(3));
    r.complete_lease(1).unwrap();
    assert_eq!(r.create_lease(1, "O".to_string(), "M".to_string(), 5, 6, 7), Ok(4));
    assert_eq!(r.view_all_lease_status(), status(3, 1, 0, 4));
}

#[test]
fn create_lease_records_the_terms() {
    let mut r = registry_with_asset(7);
    let id = r.create_lease(7, "Owner".to_string(), "Lessee".to_string(), 10, 20, 30).unwrap();
    let l = r.view_lease(id).unwrap();
    assert_eq!(l.lease_id, 1);
    assert_eq!(l.asset_id, 7);
    assert_eq!(l.owner, "Owner");
    assert_eq!(l.lessee, "Lessee");
    assert_eq!(l.start_time, 10);
    assert_eq!(l.end_time, 20);
    assert_eq!(l.payment_amount, 30);
    assert!(l.is_active);
}

#[test]
fn create_lease_keeps_counts_balanced() {
    let mut r = registry_with_asset(1);
    r.register_asset(2, "B".to_string(), "land".to_string(), "field".to_string()).unwrap();
    r.create_lease(1, "O".to_string(), "L".to_string(), 1, 2, 3).unwrap();
    r.expire_lease(1).unwrap();
    let before = r.view_all_lease_status();
    r.create_lease(2, "O".to_string(), "L".to_string(), 1, 2, 3).unwrap();
    let after = r.view_all_lease_status();
    assert_eq!(after.active, before.active + 1);
    assert_eq!(after.total, before.total + 1);
    assert_eq!(after.total, after.active + after.completed + after.expired);
    assert_eq!(after, status(1, 0, 1, 2));
}

#[test]
fn complete_then_expire_is_noop() {
    let mut r = registry_with_asset(1);
    r.create_lease(1, "O".to_string(), "L".to_string(), 1, 2, 3).unwrap();
    assert_eq!(r.complete_lease(1), Ok(()));
    let s = r.view_all_lease_status();
    assert_eq!(r.expire_lease(1), Err(LeaseError::AlreadyTerminal));
    assert_eq!(r.view_all_lease_status(), s);
    assert_eq!(s, status(0, 1, 0, 1));
}

#[test]
fn expire_then_complete_is_noop() {
    let mut r = registry_with_asset(1);
    r.create_lease(1, "O".to_string(), "L".to_string(), 1, 2, 3).unwrap();
    assert_eq!(r.expire_lease(1), Ok(()));
    assert!(r.view_asset(1).unwrap().is_available);
    let s = r.view_all_lease_status();
    assert_eq!(r.complete_lease(1), Err(LeaseError::AlreadyTerminal));
    assert_eq!(r.view_all_lease_status(), s);
    assert_eq!(s, status(0, 0, 1, 1));
}

#[test]
fn view_lease_never_created_is_not_found() {
    let mut r = registry_with_asset(1);
    r.create_lease(1, "O".to_string(), "L".to_string(), 1, 2, 3).unwrap();
    assert_eq!(r.view_lease(0), Err(LeaseError::NotFound));
    assert_eq!(r.view_lease(2), Err(LeaseError::NotFound));
    assert_eq!(r.view_lease(u64::MAX), Err(LeaseError::NotFound));
    assert_eq!(r.view_lease(1).unwrap().lease_id, 1);
}

#[test]
fn unavailable_asset_is_rejected() {
    let mut r = registry_with_asset(1);
    r.create_lease(1, "O".to_string(), "L".to_string(), 1, 2, 3).unwrap();
    let s = r.view_all_lease_status();
    assert_eq!(
        r.create_lease(1, "X".to_string(), "Y".to_string(), 4, 5, 6),
        Err(LeaseError::AssetUnavailable)
    );
    assert_eq!(r.view_all_lease_status(), s);
    assert_eq!(r.view_lease(2), Err(LeaseError::NotFound));
    assert_eq!(r.view_lease(1).unwrap().lessee, "L");
}

#[test]
fn unregistered_asset_is_not_found() {
    let mut r = LandRegistryContract::new();
    assert_eq!(
        r.create_lease(9, "O".to_string(), "L".to_string(), 1, 2, 3),
        Err(LeaseError::NotFound)
    );
    assert_eq!(r.view_all_lease_status(), status(0, 0, 0, 0));
}

#[test]
fn ending_unknown_lease_is_not_found() {
    let mut r = registry_with_asset(1);
    assert_eq!(r.complete_lease(1), Err(LeaseError::NotFound));
    assert_eq!(r.expire_lease(0), Err(LeaseError::NotFound));
    assert_eq!(r.view_all_lease_status(), status(0, 0, 0, 0));
}

#[test]
fn registering_twice_is_refused() {
    let mut r = registry_with_asset(4);
    assert_eq!(
        r.register_asset(4, "Other".to_string(), "house".to_string(), "x".to_string()),
        Err(LeaseError::AlreadyRegistered)
    );
    let a = r.view_asset(4).unwrap();
    assert_eq!(a.owner, "A-owner");
    assert_eq!(a.asset_type, "land");
    assert_eq!(a.description, "plot");
    assert!(a.is_available);
}

#[test]
fn registering_leased_asset_is_refused_and_stays_leased() {
    let mut r = registry_with_asset(4);
    r.create_lease(4, "O".to_string(), "L".to_string(), 1, 2, 3).unwrap();
    assert_eq!(
        r.register_asset(4, "O".to_string(), "land".to_string(), "plot".to_string()),
        Err(LeaseError::AlreadyRegistered)
    );
    assert!(!r.view_asset(4).unwrap().is_available);
}

#[test]
fn largest_ids_are_handled() {
    let mut r = registry_with_asset(u64::MAX);
    assert_eq!(
        r.create_lease(u64::MAX, "O".to_string(), "L".to_string(), u64::MAX, 0, u64::MAX),
        Ok(1)
    );
    let l = r.view_lease(1).unwrap();
    assert_eq!(l.asset_id, u64::MAX);
    assert_eq!(l.start_time, u64::MAX);
    assert_eq!(l.end_time, 0);
    assert_eq!(r.expire_lease(1), Ok(()));
    assert!(r.view_asset(u64::MAX).unwrap().is_available);
}
