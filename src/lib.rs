//! A lease registry for registered assets: leases are created against
//! available assets, end exactly once (completed or expired), and the
//! aggregate status counters stay consistent with the recorded leases.
pub mod laws;
pub mod records;
pub mod registry;

pub use records::{Asset, Lease, LeaseBook, LeaseError, LeaseStatus};
pub use registry::{LandRegistryContract, RegistryModel};
