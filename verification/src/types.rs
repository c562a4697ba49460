//! Identifiers, principals, limits and the records kept for classes,
//! instances and resources.

use vstd::prelude::*;

verus! {

/// An account of the host ledger.
pub type AccountId = u64;

/// The identifier of a class.
pub type ClassId = u32;

/// The identifier of an instance within its class.
pub type InstanceId = u32;

/// The identifier of a resource within its instance.
pub type ResourceId = u32;

/// The account that calls of the protocol principal are attributed to.
pub const NULL_ACCOUNT: AccountId = 0;

/// A royalty is a percentage below this bound.
pub const ROYALTY_BOUND: u8 = 100;

/// Who makes a call.
#[derive(Clone, Copy, Debug, PartialEq, Eq, Structural)]
pub enum Principal {
    /// The privileged protocol principal.
    Protocol,
    /// An authenticated signer.
    Account(AccountId),
}

impl Principal {
    /// The principal of a call, from what the host knows of its origin:
    /// whether it is the protocol's own, and who signed it, if anyone.
    pub open spec fn spec_resolve(protocol: bool, signer: Option<AccountId>) -> Option<Principal> {
        if protocol {
            Some(Principal::Protocol)
        } else {
            match signer {
                Some(account) => Some(Principal::Account(account)),
                None => None,
            }
        }
    }

    /// The principal of a call, from what the host knows of its origin:
    /// whether it is the protocol's own, and who signed it, if anyone. An
    /// origin of the protocol is the protocol principal, whoever signed;
    /// any other is its signer; one that is neither is no principal.
    #[verifier::when_used_as_spec(spec_resolve)]
    pub fn resolve(protocol: bool, signer: Option<AccountId>) -> (principal: Option<Principal>)
        ensures
            principal == Principal::spec_resolve(protocol, signer),
    {
        if protocol {
            Some(Principal::Protocol)
        } else {
            match signer {
                Some(account) => Some(Principal::Account(account)),
                None => None,
            }
        }
    }

    /// The account that a call by this principal is attributed to.
    pub open spec fn spec_account(self) -> AccountId {
        match self {
            Principal::Protocol => NULL_ACCOUNT,
            Principal::Account(a) => a,
        }
    }

    /// The account that a call by this principal is attributed to: the
    /// signer, or the null account for the protocol principal.
    #[verifier::when_used_as_spec(spec_account)]
    pub fn account(self) -> (a: AccountId)
        ensures
            a == self.spec_account(),
    {
        match self {
            Principal::Protocol => NULL_ACCOUNT,
            Principal::Account(a) => a,
        }
    }
}

/// The longest byte strings that the registries accept.
#[derive(Clone, Copy, Debug, PartialEq, Eq, Structural)]
pub struct Config {
    /// The greatest length of a metadata field.
    pub string_limit: u32,
    /// The greatest length of a property key.
    pub key_limit: u32,
    /// The greatest length of a property value.
    pub value_limit: u32,
}

/// What is kept of a class.
#[derive(Clone, Debug, PartialEq, Eq)]
pub struct ClassInfo {
    /// Arbitrary data about the class.
    pub metadata: Vec<u8>,
    /// Whether the class is locked: no instance can be minted in a locked
    /// class.
    pub locked: bool,
}

/// A [`ClassInfo`] as a mathematical value.
pub struct ClassView {
    pub metadata: Seq<u8>,
    pub locked: bool,
}

impl View for ClassInfo {
    type V = ClassView;

    open spec fn view(&self) -> ClassView {
        ClassView { metadata: self.metadata@, locked: self.locked }
    }
}

/// What is kept of an instance.
#[derive(Clone, Debug, PartialEq, Eq)]
pub struct InstanceInfo {
    /// The account that receives the royalty.
    pub author: AccountId,
    /// The royalty in percent, below [`ROYALTY_BOUND`].
    pub royalty: u8,
    /// Arbitrary data about the instance.
    pub metadata: Vec<u8>,
}

/// An [`InstanceInfo`] as a mathematical value.
pub struct InstanceView {
    pub author: AccountId,
    pub royalty: u8,
    pub metadata: Seq<u8>,
}

impl View for InstanceInfo {
    type V = InstanceView;

    open spec fn view(&self) -> InstanceView {
        InstanceView { author: self.author, royalty: self.royalty, metadata: self.metadata@ }
    }
}

/// Where a resource stands in its life: it is proposed, then accepted.
#[derive(Clone, Copy, Debug, PartialEq, Eq, Structural)]
pub enum ResourceState {
    /// Proposed by the issuer, not yet accepted by the owner.
    Pending,
    /// Accepted by the owner.
    Accepted,
}

/// What is kept of a resource.
#[derive(Clone, Debug, PartialEq, Eq)]
pub struct ResourceInfo {
    /// The content descriptor of the resource.
    pub payload: Vec<u8>,
    /// Whether the resource is still pending.
    pub state: ResourceState,
}

/// A [`ResourceInfo`] as a mathematical value.
pub struct ResourceView {
    pub payload: Seq<u8>,
    pub state: ResourceState,
}

impl View for ResourceInfo {
    type V = ResourceView;

    open spec fn view(&self) -> ResourceView {
        ResourceView { payload: self.payload@, state: self.state }
    }
}

} // verus!
