//! State machine of composable, multi-resource non-fungible tokens.
//!
//! A class is a collection of instances. An instance has an author, a
//! royalty and metadata, and resources that its class's issuer proposes and
//! its owner accepts and puts in an order of priority. Who owns an instance
//! and who issues a class is the asset ledger's business: an operation is
//! told what the ledger says, and tells in its [`Outcome`] what the ledger
//! is to do.

pub mod error;
pub mod event;
pub mod gate;
pub mod laws;
pub mod pallet;
pub mod state;
pub mod store;
pub mod types;

pub use crate::error::Error;
pub use crate::event::{Event, LedgerCall, Outcome};
pub use crate::pallet::Pallet;
pub use crate::types::{
    AccountId, ClassId, ClassInfo, Config, InstanceId, InstanceInfo, Principal, ResourceId,
    ResourceInfo, ResourceState, NULL_ACCOUNT, ROYALTY_BOUND,
};
