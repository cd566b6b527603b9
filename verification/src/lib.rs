//! The contracts of a mentoring platform, as verified state machines.

pub mod crypto;
pub mod fixed_point;
pub mod governance;
pub mod lists;
pub mod lmsr;
pub mod prediction_market;
pub mod referral;
pub mod session_nft;
pub mod session_registry;
pub mod sums;
pub mod table;
pub mod treasury;
pub mod types;
pub mod upgrade_registry;
