//! The state machine as mathematics: the state, what makes it valid, and
//! what each operation makes of it.

use vstd::prelude::*;
use crate::error::Error;
use crate::types::{
    AccountId, ClassId, ClassView, Config, InstanceId, InstanceView, Principal, ResourceId,
    ResourceState, ResourceView, ROYALTY_BOUND,
};

verus! {

/// What names an instance: its class and its identifier within the class.
pub type InstanceKey = (ClassId, InstanceId);

/// What names a resource: its instance and its identifier within the
/// instance.
pub type ResourceKey = (ClassId, InstanceId, ResourceId);

/// Whether `principal` may act where the asset ledger names `required` as
/// the issuer or owner: the protocol principal always may, a signer only
/// if it is that account.
pub open spec fn authorized(principal: Principal, required: Option<AccountId>) -> bool {
    match principal {
        Principal::Protocol => true,
        Principal::Account(a) => required == Some(a),
    }
}

/// The keys of the resources of one instance.
pub open spec fn resources_of(key: InstanceKey) -> Set<ResourceKey> {
    Set::new(|k: ResourceKey| k.0 == key.0 && k.1 == key.1)
}

/// The state of the registries.
#[verifier::ext_equal]
pub struct State {
    /// The limits on byte strings.
    pub config: Config,
    /// The identifier of the next class.
    pub next_class_id: ClassId,
    /// For each class that has given out an identifier, the identifier of
    /// its next instance.
    pub next_instance_id: Map<ClassId, InstanceId>,
    /// The classes.
    pub classes: Map<ClassId, ClassView>,
    /// The instances.
    pub instances: Map<InstanceKey, InstanceView>,
    /// The resources.
    pub resources: Map<ResourceKey, ResourceView>,
    /// For each instance that has one, its list of priorities.
    pub priority: Map<InstanceKey, Seq<ResourceId>>,
}

impl State {
    /// The state in which nothing has been created and the first class gets
    /// the identifier `first_class_id`.
    pub open spec fn genesis(config: Config, first_class_id: ClassId) -> State {
        State {
            config,
            next_class_id: first_class_id,
            next_instance_id: Map::empty(),
            classes: Map::empty(),
            instances: Map::empty(),
            resources: Map::empty(),
            priority: Map::empty(),
        }
    }

    /// The identifier of the next instance of class `class_id`: zero until
    /// the class has given one out.
    pub open spec fn instance_counter(self, class_id: ClassId) -> InstanceId {
        if self.next_instance_id.contains_key(class_id) {
            self.next_instance_id[class_id]
        } else {
            0
        }
    }

    /// The list of priorities of an instance: empty until a resource of it
    /// has been accepted.
    pub open spec fn priority_of(self, key: InstanceKey) -> Seq<ResourceId> {
        if self.priority.contains_key(key) {
            self.priority[key]
        } else {
            Seq::empty()
        }
    }

    /// Whether the instance has the resource `resource_id` and has accepted
    /// it.
    pub open spec fn accepted(self, key: InstanceKey, resource_id: ResourceId) -> bool {
        let k = (key.0, key.1, resource_id);
        self.resources.contains_key(k) && self.resources[k].state == ResourceState::Accepted
    }

    /// Whether `ids` lists the accepted resources of the instance, each
    /// once and no other.
    pub open spec fn permutes(self, ids: Seq<ResourceId>, key: InstanceKey) -> bool {
        &&& ids.no_duplicates()
        &&& forall|r: ResourceId| #[trigger] ids.contains(r) <==> self.accepted(key, r)
    }

    /// Whether the list of priorities of the instance is a permutation of
    /// its accepted resources.
    pub open spec fn priority_ok(self, key: InstanceKey) -> bool {
        self.permutes(self.priority_of(key), key)
    }

    /// Whether the class has an instance.
    pub open spec fn has_instances(self, class_id: ClassId) -> bool {
        exists|i: InstanceId| self.instances.contains_key((class_id, i))
    }

    /// What holds of every state that the operations reach.
    ///
    /// Identifiers in use are below their counters, so that no identifier is
    /// given out twice; every royalty is below one hundred; every stored
    /// byte string is within the limit; an instance belongs to a class that
    /// exists, a resource to an instance that exists; and the priorities of
    /// an instance are a permutation of its accepted resources.
    pub open spec fn inv(self) -> bool {
        &&& forall|c: ClassId| #[trigger]
            self.classes.contains_key(c) ==> c < self.next_class_id
                && self.classes[c].metadata.len() <= self.config.string_limit
        &&& forall|k: InstanceKey| #[trigger]
            self.instances.contains_key(k) ==> self.classes.contains_key(k.0)
                && k.1 < self.instance_counter(k.0)
                && self.instances[k].royalty < ROYALTY_BOUND
                && self.instances[k].metadata.len() <= self.config.string_limit
        &&& forall|k: ResourceKey| #[trigger]
            self.resources.contains_key(k) ==> self.instances.contains_key((k.0, k.1))
                && self.resources[k].payload.len() <= self.config.string_limit
        &&& forall|k: InstanceKey| #[trigger]
            self.priority.contains_key(k) ==> self.instances.contains_key(k)
        &&& forall|k: InstanceKey| #[trigger] self.priority_ok(k)
    }

    /// Takes the next class identifier.
    pub open spec fn allocate_class_id(self) -> Result<State, Error> {
        if self.next_class_id == u32::MAX {
            Err(Error::IdSpaceExhausted)
        } else {
            Ok(State { next_class_id: (self.next_class_id + 1) as ClassId, ..self })
        }
    }

    /// Takes the next instance identifier of class `class_id`.
    pub open spec fn allocate_instance_id(self, class_id: ClassId) -> Result<State, Error> {
        if self.instance_counter(class_id) == u32::MAX {
            Err(Error::IdSpaceExhausted)
        } else {
            Ok(
                State {
                    next_instance_id: self.next_instance_id.insert(
                        class_id,
                        (self.instance_counter(class_id) + 1) as InstanceId,
                    ),
                    ..self
                },
            )
        }
    }

    /// Creates a class with the next class identifier.
    pub open spec fn mint_collection(self, metadata: Seq<u8>) -> Result<State, Error> {
        if metadata.len() > self.config.string_limit {
            Err(Error::MetadataTooLong)
        } else if self.next_class_id == u32::MAX {
            Err(Error::IdSpaceExhausted)
        } else {
            Ok(
                State {
                    next_class_id: (self.next_class_id + 1) as ClassId,
                    classes: self.classes.insert(
                        self.next_class_id,
                        ClassView { metadata, locked: false },
                    ),
                    ..self
                },
            )
        }
    }

    /// Mints an instance of class `class_id` with the next instance
    /// identifier of that class.
    pub open spec fn mint_nft(
        self,
        class_id: ClassId,
        author: AccountId,
        royalty: u8,
        metadata: Seq<u8>,
    ) -> Result<State, Error> {
        if !self.classes.contains_key(class_id) {
            Err(Error::ClassUnknown)
        } else if self.classes[class_id].locked {
            Err(Error::ClassLocked)
        } else if royalty >= ROYALTY_BOUND {
            Err(Error::RoyaltyOutOfRange)
        } else if metadata.len() > self.config.string_limit {
            Err(Error::MetadataTooLong)
        } else if self.instance_counter(class_id) == u32::MAX {
            Err(Error::IdSpaceExhausted)
        } else {
            Ok(
                State {
                    next_instance_id: self.next_instance_id.insert(
                        class_id,
                        (self.instance_counter(class_id) + 1) as InstanceId,
                    ),
                    instances: self.instances.insert(
                        (class_id, self.instance_counter(class_id)),
                        InstanceView { author, royalty, metadata },
                    ),
                    ..self
                },
            )
        }
    }

    /// Burns an instance, its resources and its priorities.
    pub open spec fn burn_nft(
        self,
        principal: Principal,
        key: InstanceKey,
        owner: Option<AccountId>,
    ) -> Result<State, Error> {
        if !authorized(principal, owner) {
            Err(Error::PermissionDenied)
        } else if !self.instances.contains_key(key) {
            Err(Error::InstanceUnknown)
        } else {
            Ok(
                State {
                    instances: self.instances.remove(key),
                    resources: self.resources.remove_keys(resources_of(key)),
                    priority: self.priority.remove(key),
                    ..self
                },
            )
        }
    }

    /// Burns a class that has no instance.
    pub open spec fn burn_collection(
        self,
        principal: Principal,
        class_id: ClassId,
        issuer: Option<AccountId>,
    ) -> Result<State, Error> {
        if !authorized(principal, issuer) {
            Err(Error::PermissionDenied)
        } else if !self.classes.contains_key(class_id) {
            Err(Error::ClassUnknown)
        } else if self.has_instances(class_id) {
            Err(Error::CollectionNotEmpty)
        } else {
            Ok(State { classes: self.classes.remove(class_id), ..self })
        }
    }

    /// Sends an instance to another owner: the registries stay as they are.
    pub open spec fn send(
        self,
        principal: Principal,
        key: InstanceKey,
        owner: Option<AccountId>,
    ) -> Result<State, Error> {
        if !authorized(principal, owner) {
            Err(Error::PermissionDenied)
        } else if !self.instances.contains_key(key) {
            Err(Error::InstanceUnknown)
        } else {
            Ok(self)
        }
    }

    /// Gives a class another issuer: the registries stay as they are.
    pub open spec fn change_issuer(
        self,
        principal: Principal,
        class_id: ClassId,
        issuer: Option<AccountId>,
    ) -> Result<State, Error> {
        if !authorized(principal, issuer) {
            Err(Error::PermissionDenied)
        } else if !self.classes.contains_key(class_id) {
            Err(Error::ClassUnknown)
        } else {
            Ok(self)
        }
    }

    /// Sets a property of a class, or of an instance of it: the registries
    /// stay as they are.
    pub open spec fn set_property(
        self,
        principal: Principal,
        class_id: ClassId,
        instance_id: Option<InstanceId>,
        key: Seq<u8>,
        value: Seq<u8>,
        holder: Option<AccountId>,
    ) -> Result<State, Error> {
        if !authorized(principal, holder) {
            Err(Error::PermissionDenied)
        } else if !self.classes.contains_key(class_id) {
            Err(Error::ClassUnknown)
        } else if instance_id matches Some(i) && !self.instances.contains_key((class_id, i)) {
            Err(Error::InstanceUnknown)
        } else if instance_id is None && self.classes[class_id].locked {
            Err(Error::ClassLocked)
        } else if key.len() > self.config.key_limit || value.len() > self.config.value_limit {
            Err(Error::MetadataTooLong)
        } else {
            Ok(self)
        }
    }

    /// Locks a class.
    pub open spec fn lock_collection(
        self,
        principal: Principal,
        class_id: ClassId,
        issuer: Option<AccountId>,
    ) -> Result<State, Error> {
        if !authorized(principal, issuer) {
            Err(Error::PermissionDenied)
        } else if !self.classes.contains_key(class_id) {
            Err(Error::ClassUnknown)
        } else {
            Ok(
                State {
                    classes: self.classes.insert(
                        class_id,
                        ClassView { locked: true, ..self.classes[class_id] },
                    ),
                    ..self
                },
            )
        }
    }

    /// Proposes a resource for an instance.
    pub open spec fn add_resource(
        self,
        principal: Principal,
        key: InstanceKey,
        resource_id: ResourceId,
        payload: Seq<u8>,
        issuer: Option<AccountId>,
    ) -> Result<State, Error> {
        if !authorized(principal, issuer) {
            Err(Error::PermissionDenied)
        } else if !self.instances.contains_key(key) {
            Err(Error::InstanceUnknown)
        } else if self.resources.contains_key((key.0, key.1, resource_id)) {
            Err(Error::ResourceIdInUse)
        } else if payload.len() > self.config.string_limit {
            Err(Error::MetadataTooLong)
        } else {
            Ok(
                State {
                    resources: self.resources.insert(
                        (key.0, key.1, resource_id),
                        ResourceView { payload, state: ResourceState::Pending },
                    ),
                    ..self
                },
            )
        }
    }

    /// Accepts a pending resource and puts it last in the priorities.
    pub open spec fn accept(
        self,
        principal: Principal,
        key: InstanceKey,
        resource_id: ResourceId,
        owner: Option<AccountId>,
    ) -> Result<State, Error> {
        let k = (key.0, key.1, resource_id);
        if !authorized(principal, owner) {
            Err(Error::PermissionDenied)
        } else if !self.instances.contains_key(key) {
            Err(Error::InstanceUnknown)
        } else if !self.resources.contains_key(k) {
            Err(Error::ResourceUnknown)
        } else if self.resources[k].state != ResourceState::Pending {
            Err(Error::ResourceNotPending)
        } else {
            Ok(
                State {
                    resources: self.resources.insert(
                        k,
                        ResourceView { state: ResourceState::Accepted, ..self.resources[k] },
                    ),
                    priority: self.priority.insert(key, self.priority_of(key).push(resource_id)),
                    ..self
                },
            )
        }
    }

    /// Puts the accepted resources of an instance in another order.
    pub open spec fn set_priority(
        self,
        principal: Principal,
        key: InstanceKey,
        ids: Seq<ResourceId>,
        owner: Option<AccountId>,
    ) -> Result<State, Error> {
        if !authorized(principal, owner) {
            Err(Error::PermissionDenied)
        } else if !self.instances.contains_key(key) {
            Err(Error::InstanceUnknown)
        } else if !self.permutes(ids, key) {
            Err(Error::InvalidPriorityList)
        } else {
            Ok(State { priority: self.priority.insert(key, ids), ..self })
        }
    }
}

} // verus!
