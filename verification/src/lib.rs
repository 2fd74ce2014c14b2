//! A delegated-authority, membership-gated counter.
//!
//! An owner creates a counter and links it to a whitelist; once linked, only
//! wallets present on the whitelist may increment the counter, and the power
//! to edit the whitelist is delegated to a capability derived from the counter
//! itself rather than retained by the owner.

pub mod addr;
pub mod counter;
pub mod errors;
pub mod laws;
pub mod whitelist;

mod table;
