//! What a successful operation hands back: the event it emits and what it
//! asks of the asset ledger.

use vstd::prelude::*;
use crate::types::{AccountId, ClassId, InstanceId, ResourceId};

verus! {

/// The event of a successful operation.
#[derive(Clone, Debug, PartialEq, Eq)]
pub enum Event {
    /// A class was created: its owner and its identifier.
    ClassCreated(AccountId, ClassId),
    /// An instance was minted: its owner, its class and its identifier.
    InstanceMinted(AccountId, ClassId, InstanceId),
    /// An instance was burned: the caller and the instance.
    NFTBurned(AccountId, InstanceId),
    /// A class was burned: the caller and the class.
    CollectionBurned(AccountId, ClassId),
    /// An instance was sent: the caller, the destination, the class and the
    /// instance.
    NFTSent(AccountId, AccountId, ClassId, InstanceId),
    /// A class got another issuer: the caller, the new issuer and the class.
    IssuerChanged(AccountId, AccountId, ClassId),
    /// A property was set on a class, or on an instance of it: the class,
    /// the instance if any, the key and the value.
    PropertySet(ClassId, Option<InstanceId>, Vec<u8>, Vec<u8>),
    /// A class was locked: the caller and the class.
    CollectionLocked(AccountId, ClassId),
    /// A resource was proposed: the instance and the resource.
    ResourceAdded(InstanceId, ResourceId),
    /// A resource was accepted: the instance and the resource.
    ResourceAccepted(InstanceId, ResourceId),
    /// The priorities of an instance were set: the class and the instance.
    PrioritySet(ClassId, InstanceId),
}

/// What the asset ledger is to do for an operation to take effect.
#[derive(Clone, Debug, PartialEq, Eq)]
pub enum LedgerCall {
    /// Register a class with its owner and its issuer, frozen or not.
    CreateClass { class_id: ClassId, owner: AccountId, issuer: AccountId, frozen: bool },
    /// Give a new instance to its owner.
    Mint { class_id: ClassId, instance_id: InstanceId, owner: AccountId },
    /// Destroy an instance.
    Burn { class_id: ClassId, instance_id: InstanceId },
    /// Give an instance to another owner.
    Transfer { class_id: ClassId, instance_id: InstanceId, destination: AccountId },
    /// Give a class another issuer.
    SetIssuer { class_id: ClassId, issuer: AccountId },
    /// Keep a value under a key of a class, or of an instance of it.
    SetAttribute { class_id: ClassId, instance_id: Option<InstanceId>, key: Vec<u8>, value: Vec<u8> },
}

/// What a successful operation hands back.
#[derive(Clone, Debug, PartialEq, Eq)]
pub struct Outcome {
    /// The event to emit.
    pub event: Event,
    /// What the asset ledger is asked to do, if anything. Should the ledger
    /// refuse, the operation has not taken place: the caller goes back to the
    /// state that it held before.
    pub ledger: Option<LedgerCall>,
}

} // verus!
