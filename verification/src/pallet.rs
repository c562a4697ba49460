//! The registries and the operations on them.

use vstd::prelude::*;
use crate::error::Error;
use crate::event::{Event, LedgerCall, Outcome};
use crate::gate::{copy_bytes, is_authorized, validate_length, validate_royalty};
use crate::laws::{
    lemma_permutation_by_count, lemma_permutations_same_length, lemma_step_keeps_inv, Call,
};
use crate::state::{resources_of, InstanceKey, ResourceKey, State};
use crate::store::Table;
use crate::types::{
    AccountId, ClassId, ClassInfo, Config, InstanceId, InstanceInfo, Principal, ResourceId,
    ResourceInfo, ResourceState,
};

verus! {

/// The registries of classes, instances and resources, with the counters
/// that give out their identifiers.
///
/// An operation either succeeds, and hands back its [`Outcome`], or is
/// refused with an [`Error`] and leaves the registries as they were.
#[derive(Clone, Debug, PartialEq, Eq)]
pub struct Pallet {
    config: Config,
    next_class_id: ClassId,
    next_instance_id: Table<ClassId, InstanceId>,
    classes: Table<ClassId, ClassInfo>,
    instances: Table<InstanceKey, InstanceInfo>,
    resources: Table<ResourceKey, ResourceInfo>,
    priority: Table<InstanceKey, Vec<ResourceId>>,
}

impl View for Pallet {
    type V = State;

    closed spec fn view(&self) -> State {
        State {
            config: self.config,
            next_class_id: self.next_class_id,
            next_instance_id: self.next_instance_id@,
            classes: self.classes@,
            instances: self.instances@,
            resources: self.resources@,
            priority: self.priority@,
        }
    }
}

impl Pallet {
    /// Whether the registries are valid: every operation asks for it and
    /// keeps it.
    pub closed spec fn inv(&self) -> bool {
        &&& self.next_instance_id.wf()
        &&& self.classes.wf()
        &&& self.instances.wf()
        &&& self.resources.wf()
        &&& self.priority.wf()
        &&& self@.inv()
    }

    /// What holds of the state of valid registries.
    pub proof fn lemma_inv(&self)
        requires
            self.inv(),
        ensures
            self@.inv(),
    {
    }

    /// Empty registries, in which the first class gets the identifier zero.
    pub fn new(config: Config) -> (pallet: Self)
        ensures
            pallet.inv(),
            pallet@ == State::genesis(config, 0),
    {
        Self::with_next_class_id(config, 0)
    }

    /// Empty registries, in which the first class gets the identifier
    /// `next_class_id`.
    pub fn with_next_class_id(config: Config, next_class_id: ClassId) -> (pallet: Self)
        ensures
            pallet.inv(),
            pallet@ == State::genesis(config, next_class_id),
    {
        let pallet = Pallet {
            config,
            next_class_id,
            next_instance_id: Table::new(),
            classes: Table::new(),
            instances: Table::new(),
            resources: Table::new(),
            priority: Table::new(),
        };
        proof {
            let s = pallet@;
            assert(s =~= State::genesis(config, next_class_id));
            assert forall|k: InstanceKey| #[trigger] s.priority_ok(k) by {
                assert(s.priority_of(k) =~= Seq::empty());
            }
        }
        pallet
    }

    /// The limits on byte strings.
    pub fn config(&self) -> (config: Config)
        ensures
            config == self@.config,
    {
        self.config
    }

    /// The identifier that the next class gets.
    pub fn next_class_id(&self) -> (id: ClassId)
        ensures
            id == self@.next_class_id,
    {
        self.next_class_id
    }

    /// The identifier that the next instance of class `class_id` gets.
    pub fn next_instance_id(&self, class_id: ClassId) -> (id: InstanceId)
        requires
            self.inv(),
        ensures
            id == self@.instance_counter(class_id),
    {
        match self.next_instance_id.get(&class_id) {
            Some(id) => *id,
            None => 0,
        }
    }

    /// What is kept of class `class_id`, if it exists.
    pub fn classes(&self, class_id: ClassId) -> (info: Option<&ClassInfo>)
        requires
            self.inv(),
        ensures
            match info {
                Some(info) => self@.classes.contains_key(class_id) && info@
                    == self@.classes[class_id],
                None => !self@.classes.contains_key(class_id),
            },
    {
        self.classes.get(&class_id)
    }

    /// What is kept of instance `instance_id` of class `class_id`, if it
    /// exists.
    pub fn instances(&self, class_id: ClassId, instance_id: InstanceId) -> (info: Option<
        &InstanceInfo,
    >)
        requires
            self.inv(),
        ensures
            match info {
                Some(info) => self@.instances.contains_key((class_id, instance_id)) && info@
                    == self@.instances[(class_id, instance_id)],
                None => !self@.instances.contains_key((class_id, instance_id)),
            },
    {
        self.instances.get(&(class_id, instance_id))
    }

    /// What is kept of resource `resource_id` of an instance, if it exists.
    pub fn resources(
        &self,
        class_id: ClassId,
        instance_id: InstanceId,
        resource_id: ResourceId,
    ) -> (info: Option<&ResourceInfo>)
        requires
            self.inv(),
        ensures
            match info {
                Some(info) => self@.resources.contains_key((class_id, instance_id, resource_id))
                    && info@ == self@.resources[(class_id, instance_id, resource_id)],
                None => !self@.resources.contains_key((class_id, instance_id, resource_id)),
            },
    {
        self.resources.get(&(class_id, instance_id, resource_id))
    }

    /// The accepted resources of an instance, in the order of their
    /// priority.
    pub fn priorities(&self, class_id: ClassId, instance_id: InstanceId) -> (ids: Vec<ResourceId>)
        requires
            self.inv(),
        ensures
            ids@ == self@.priority_of((class_id, instance_id)),
    {
        let mut ids: Vec<ResourceId> = Vec::new();
        match self.priority.get(&(class_id, instance_id)) {
            Some(list) => {
                let mut i: usize = 0;
                while i < list.len()
                    invariant
                        i <= list@.len(),
                        ids@ == list@.take(i as int),
                    decreases list@.len() - i,
                {
                    ids.push(list[i]);
                    assert(list@.take(i + 1) =~= list@.take(i as int).push(list@[i as int]));
                    i += 1;
                }
                assert(list@.take(list@.len() as int) =~= list@);
            },
            None => {},
        }
        ids
    }

    /// Takes the next class identifier: the counter's value, which the
    /// counter then passes. Refused with [`Error::IdSpaceExhausted`] where
    /// the counter cannot pass it.
    pub fn allocate_class_id(&mut self) -> (r: Result<ClassId, Error>)
        requires
            old(self).inv(),
        ensures
            final(self).inv(),
            old(self)@.allocate_class_id() == (match r {
                Ok(_) => Ok::<State, Error>(final(self)@),
                Err(e) => Err(e),
            }),
            r is Err ==> final(self)@ == old(self)@,
            r matches Ok(id) ==> id == old(self)@.next_class_id,
    {
        let id = self.next_class_id;
        match id.checked_add(1) {
            Some(next) => {
                self.next_class_id = next;
                proof {
                    assert(self@ =~= old(self)@.after(Call::AllocateClassId));
                    lemma_step_keeps_inv(old(self)@, Call::AllocateClassId);
                }
                Ok(id)
            },
            None => Err(Error::IdSpaceExhausted),
        }
    }

    /// Takes the next instance identifier of class `class_id`: the value of
    /// the class's counter, which the counter then passes. Refused with
    /// [`Error::IdSpaceExhausted`] where the counter cannot pass it.
    pub fn allocate_instance_id(&mut self, class_id: ClassId) -> (r: Result<InstanceId, Error>)
        requires
            old(self).inv(),
        ensures
            final(self).inv(),
            old(self)@.allocate_instance_id(class_id) == (match r {
                Ok(_) => Ok::<State, Error>(final(self)@),
                Err(e) => Err(e),
            }),
            r is Err ==> final(self)@ == old(self)@,
            r matches Ok(id) ==> id == old(self)@.instance_counter(class_id),
    {
        let id = self.next_instance_id(class_id);
        match id.checked_add(1) {
            Some(next) => {
                self.next_instance_id.insert(class_id, next);
                proof {
                    let call = Call::AllocateInstanceId { class_id };
                    assert(self@ =~= old(self)@.after(call));
                    lemma_step_keeps_inv(old(self)@, call);
                }
                Ok(id)
            },
            None => Err(Error::IdSpaceExhausted),
        }
    }

    /// Creates a class: it gets the next class identifier, the metadata
    /// `metadata`, and is not locked. The asset ledger is to register it,
    /// not frozen, with the caller's account as owner and issuer.
    ///
    /// Refused with [`Error::MetadataTooLong`] where the metadata is longer
    /// than the limit, else with [`Error::IdSpaceExhausted`] where no class
    /// identifier is left.
    pub fn mint_collection(&mut self, principal: Principal, metadata: Vec<u8>) -> (r: Result<
        Outcome,
        Error,
    >)
        requires
            old(self).inv(),
        ensures
            final(self).inv(),
            old(self)@.mint_collection(metadata@) == (match r {
                Ok(_) => Ok::<State, Error>(final(self)@),
                Err(e) => Err(e),
            }),
            r is Err ==> final(self)@ == old(self)@,
            r matches Ok(out) ==> out == (Outcome {
                event: Event::ClassCreated(principal.account(), old(self)@.next_class_id),
                ledger: Some(
                    LedgerCall::CreateClass {
                        class_id: old(self)@.next_class_id,
                        owner: principal.account(),
                        issuer: principal.account(),
                        frozen: false,
                    },
                ),
            }),
    {
        match validate_length(&metadata, self.config.string_limit) {
            Err(e) => {
                return Err(e);
            },
            Ok(_) => {},
        }
        let class_id = match self.allocate_class_id() {
            Err(e) => {
                return Err(e);
            },
            Ok(id) => id,
        };
        let ghost call = Call::MintCollection { metadata: metadata@ };
        self.classes.insert(class_id, ClassInfo { metadata, locked: false });
        proof {
            assert(self@ =~= old(self)@.after(call));
            lemma_step_keeps_inv(old(self)@, call);
        }
        let owner = principal.account();
        Ok(
            Outcome {
                event: Event::ClassCreated(owner, class_id),
                ledger: Some(
                    LedgerCall::CreateClass { class_id, owner, issuer: owner, frozen: false },
                ),
            },
        )
    }

    /// Mints an instance of class `class_id`: it gets the next instance
    /// identifier of the class, and the author, royalty and metadata
    /// given. The asset ledger is to give it to the caller's account.
    ///
    /// Refused with [`Error::ClassUnknown`] where the class does not exist,
    /// else with [`Error::ClassLocked`] where it is locked, else with
    /// [`Error::RoyaltyOutOfRange`] where the royalty is not below one
    /// hundred, else with [`Error::MetadataTooLong`] where the metadata is
    /// longer than the limit, else with [`Error::IdSpaceExhausted`] where
    /// the class has no instance identifier left.
    pub fn mint_nft(
        &mut self,
        principal: Principal,
        class_id: ClassId,
        author: AccountId,
        royalty: u8,
        metadata: Vec<u8>,
    ) -> (r: Result<Outcome, Error>)
        requires
            old(self).inv(),
        ensures
            final(self).inv(),
            old(self)@.mint_nft(class_id, author, royalty, metadata@) == (match r {
                Ok(_) => Ok::<State, Error>(final(self)@),
                Err(e) => Err(e),
            }),
            r is Err ==> final(self)@ == old(self)@,
            r matches Ok(out) ==> out == (Outcome {
                event: Event::InstanceMinted(
                    principal.account(),
                    class_id,
                    old(self)@.instance_counter(class_id),
                ),
                ledger: Some(
                    LedgerCall::Mint {
                        class_id,
                        instance_id: old(self)@.instance_counter(class_id),
                        owner: principal.account(),
                    },
                ),
            }),
            r is Ok ==> royalty < 100 && metadata@.len() <= old(self)@.config.string_limit,
    {
        let locked = match self.classes.get(&class_id) {
            None => {
                return Err(Error::ClassUnknown);
            },
            Some(info) => info.locked,
        };
        if locked {
            return Err(Error::ClassLocked);
        }
        match validate_royalty(royalty) {
            Err(e) => {
                return Err(e);
            },
            Ok(_) => {},
        }
        match validate_length(&metadata, self.config.string_limit) {
            Err(e) => {
                return Err(e);
            },
            Ok(_) => {},
        }
        let instance_id = match self.allocate_instance_id(class_id) {
            Err(e) => {
                return Err(e);
            },
            Ok(id) => id,
        };
        let ghost call = Call::MintNft { class_id, author, royalty, metadata: metadata@ };
        self.instances.insert((class_id, instance_id), InstanceInfo { author, royalty, metadata });
        proof {
            assert(self@ =~= old(self)@.after(call));
            lemma_step_keeps_inv(old(self)@, call);
        }
        let owner = principal.account();
        Ok(
            Outcome {
                event: Event::InstanceMinted(owner, class_id, instance_id),
                ledger: Some(LedgerCall::Mint { class_id, instance_id, owner }),
            },
        )
    }

    /// Burns an instance, with its resources and its priorities. The asset
    /// ledger is to destroy it.
    ///
    /// `owner` is the owner that the asset ledger names for the instance.
    /// Refused with [`Error::PermissionDenied`] where the caller is neither
    /// that owner nor the protocol principal, else with
    /// [`Error::InstanceUnknown`] where the instance does not exist.
    pub fn burn_nft(
        &mut self,
        principal: Principal,
        class_id: ClassId,
        instance_id: InstanceId,
        owner: Option<AccountId>,
    ) -> (r: Result<Outcome, Error>)
        requires
            old(self).inv(),
        ensures
            final(self).inv(),
            old(self)@.burn_nft(principal, (class_id, instance_id), owner) == (match r {
                Ok(_) => Ok::<State, Error>(final(self)@),
                Err(e) => Err(e),
            }),
            r is Err ==> final(self)@ == old(self)@,
            r matches Ok(out) ==> out == (Outcome {
                event: Event::NFTBurned(principal.account(), instance_id),
                ledger: Some(LedgerCall::Burn { class_id, instance_id }),
            }),
    {
        let key = (class_id, instance_id);
        if !is_authorized(principal, owner) {
            return Err(Error::PermissionDenied);
        }
        if !self.instances.contains_key(&key) {
            return Err(Error::InstanceUnknown);
        }
        let _ = self.instances.remove(&key);
        self.resources.remove_under(class_id, instance_id);
        let _ = self.priority.remove(&key);
        proof {
            let call = Call::BurnNft { principal, key, owner };
            assert(Set::new(|k: ResourceKey| k.0 == class_id && k.1 == instance_id)
                =~= resources_of(key));
            assert(self@ =~= old(self)@.after(call));
            lemma_step_keeps_inv(old(self)@, call);
        }
        Ok(
            Outcome {
                event: Event::NFTBurned(principal.account(), instance_id),
                ledger: Some(LedgerCall::Burn { class_id, instance_id }),
            },
        )
    }

    /// Burns a class that has no instance. Its identifier is not given out
    /// again.
    ///
    /// `issuer` is the issuer that the asset ledger names for the class.
    /// Refused with [`Error::PermissionDenied`] where the caller is neither
    /// that issuer nor the protocol principal, else with
    /// [`Error::ClassUnknown`] where the class does not exist, else with
    /// [`Error::CollectionNotEmpty`] where the class has an instance.
    pub fn burn_collection(
        &mut self,
        principal: Principal,
        class_id: ClassId,
        issuer: Option<AccountId>,
    ) -> (r: Result<Outcome, Error>)
        requires
            old(self).inv(),
        ensures
            final(self).inv(),
            old(self)@.burn_collection(principal, class_id, issuer) == (match r {
                Ok(_) => Ok::<State, Error>(final(self)@),
                Err(e) => Err(e),
            }),
            r is Err ==> final(self)@ == old(self)@,
            r matches Ok(out) ==> out == (Outcome {
                event: Event::CollectionBurned(principal.account(), class_id),
                ledger: None,
            }),
    {
        if !is_authorized(principal, issuer) {
            return Err(Error::PermissionDenied);
        }
        if !self.classes.contains_key(&class_id) {
            return Err(Error::ClassUnknown);
        }
        if self.instances.any_under(class_id) {
            return Err(Error::CollectionNotEmpty);
        }
        let _ = self.classes.remove(&class_id);
        proof {
            let call = Call::BurnCollection { principal, class_id, issuer };
            assert(self@ =~= old(self)@.after(call));
            lemma_step_keeps_inv(old(self)@, call);
        }
        Ok(
            Outcome {
                event: Event::CollectionBurned(principal.account(), class_id),
                ledger: None,
            },
        )
    }

    /// Sends an instance to `destination`: the asset ledger is to give it
    /// to that account. The registries stay as they are.
    ///
    /// `owner` is the owner that the asset ledger names for the instance.
    /// Refused with [`Error::PermissionDenied`] where the caller is neither
    /// that owner nor the protocol principal, else with
    /// [`Error::InstanceUnknown`] where the instance does not exist.
    pub fn send(
        &self,
        principal: Principal,
        class_id: ClassId,
        instance_id: InstanceId,
        destination: AccountId,
        owner: Option<AccountId>,
    ) -> (r: Result<Outcome, Error>)
        requires
            self.inv(),
        ensures
            self@.send(principal, (class_id, instance_id), owner) == (match r {
                Ok(_) => Ok::<State, Error>(self@),
                Err(e) => Err(e),
            }),
            r matches Ok(out) ==> out == (Outcome {
                event: Event::NFTSent(principal.account(), destination, class_id, instance_id),
                ledger: Some(LedgerCall::Transfer { class_id, instance_id, destination }),
            }),
    {
        if !is_authorized(principal, owner) {
            return Err(Error::PermissionDenied);
        }
        if !self.instances.contains_key(&(class_id, instance_id)) {
            return Err(Error::InstanceUnknown);
        }
        Ok(
            Outcome {
                event: Event::NFTSent(principal.account(), destination, class_id, instance_id),
                ledger: Some(LedgerCall::Transfer { class_id, instance_id, destination }),
            },
        )
    }

    /// Gives a class the issuer `destination`: the asset ledger is to make
    /// that account its issuer. The registries stay as they are.
    ///
    /// `issuer` is the issuer that the asset ledger names for the class.
    /// Refused with [`Error::PermissionDenied`] where the caller is neither
    /// that issuer nor the protocol principal, else with
    /// [`Error::ClassUnknown`] where the class does not exist.
    pub fn change_issuer(
        &self,
        principal: Principal,
        class_id: ClassId,
        destination: AccountId,
        issuer: Option<AccountId>,
    ) -> (r: Result<Outcome, Error>)
        requires
            self.inv(),
        ensures
            self@.change_issuer(principal, class_id, issuer) == (match r {
                Ok(_) => Ok::<State, Error>(self@),
                Err(e) => Err(e),
            }),
            r matches Ok(out) ==> out == (Outcome {
                event: Event::IssuerChanged(principal.account(), destination, class_id),
                ledger: Some(LedgerCall::SetIssuer { class_id, issuer: destination }),
            }),
    {
        if !is_authorized(principal, issuer) {
            return Err(Error::PermissionDenied);
        }
        if !self.classes.contains_key(&class_id) {
            return Err(Error::ClassUnknown);
        }
        Ok(
            Outcome {
                event: Event::IssuerChanged(principal.account(), destination, class_id),
                ledger: Some(LedgerCall::SetIssuer { class_id, issuer: destination }),
            },
        )
    }

    /// Sets the property `key` of a class, or of an instance of it where
    /// `instance_id` names one, to `value`: the asset ledger is to keep the
    /// value under the class, the instance if any, and the key. The
    /// registries stay as they are.
    ///
    /// `holder` is the account that the asset ledger names as the issuer of
    /// the class where no instance is given, and as the owner of the
    /// instance where one is. Refused with [`Error::PermissionDenied`]
    /// where the caller is neither that account nor the protocol principal,
    /// else with [`Error::ClassUnknown`] where the class does not exist,
    /// else with [`Error::InstanceUnknown`] where an instance is given that
    /// does not exist, else with [`Error::ClassLocked`] where no instance
    /// is given and the class is locked, else with
    /// [`Error::MetadataTooLong`] where the key or the value is longer than
    /// its limit.
    pub fn set_property(
        &self,
        principal: Principal,
        class_id: ClassId,
        instance_id: Option<InstanceId>,
        key: Vec<u8>,
        value: Vec<u8>,
        holder: Option<AccountId>,
    ) -> (r: Result<Outcome, Error>)
        requires
            self.inv(),
        ensures
            self@.set_property(principal, class_id, instance_id, key@, value@, holder) == (match r {
                Ok(_) => Ok::<State, Error>(self@),
                Err(e) => Err(e),
            }),
            r matches Ok(out) ==> {
                &&& out.event == Event::PropertySet(class_id, instance_id, key, value)
                &&& out.ledger matches Some(
                    LedgerCall::SetAttribute { class_id: c, instance_id: i, key: k, value: v },
                )
                &&& c == class_id
                &&& i == instance_id
                &&& k@ == key@
                &&& v@ == value@
            },
    {
        if !is_authorized(principal, holder) {
            return Err(Error::PermissionDenied);
        }
        let locked = match self.classes.get(&class_id) {
            None => {
                return Err(Error::ClassUnknown);
            },
            Some(info) => info.locked,
        };
        match instance_id {
            Some(i) => {
                if !self.instances.contains_key(&(class_id, i)) {
                    return Err(Error::InstanceUnknown);
                }
            },
            None => {
                if locked {
                    return Err(Error::ClassLocked);
                }
            },
        }
        match validate_length(&key, self.config.key_limit) {
            Err(e) => {
                return Err(e);
            },
            Ok(_) => {},
        }
        match validate_length(&value, self.config.value_limit) {
            Err(e) => {
                return Err(e);
            },
            Ok(_) => {},
        }
        let ledger = LedgerCall::SetAttribute {
            class_id,
            instance_id,
            key: copy_bytes(&key),
            value: copy_bytes(&value),
        };
        Ok(
            Outcome {
                event: Event::PropertySet(class_id, instance_id, key, value),
                ledger: Some(ledger),
            },
        )
    }

    /// Locks a class: no instance can be minted in it from now on. Locking
    /// a locked class changes nothing.
    ///
    /// `issuer` is the issuer that the asset ledger names for the class.
    /// Refused with [`Error::PermissionDenied`] where the caller is neither
    /// that issuer nor the protocol principal, else with
    /// [`Error::ClassUnknown`] where the class does not exist.
    pub fn lock_collection(
        &mut self,
        principal: Principal,
        class_id: ClassId,
        issuer: Option<AccountId>,
    ) -> (r: Result<Outcome, Error>)
        requires
            old(self).inv(),
        ensures
            final(self).inv(),
            old(self)@.lock_collection(principal, class_id, issuer) == (match r {
                Ok(_) => Ok::<State, Error>(final(self)@),
                Err(e) => Err(e),
            }),
            r is Err ==> final(self)@ == old(self)@,
            r matches Ok(out) ==> out == (Outcome {
                event: Event::CollectionLocked(principal.account(), class_id),
                ledger: None,
            }),
    {
        if !is_authorized(principal, issuer) {
            return Err(Error::PermissionDenied);
        }
        let info = match self.classes.remove(&class_id) {
            None => {
                assert(self@ =~= old(self)@);
                return Err(Error::ClassUnknown);
            },
            Some(info) => info,
        };
        self.classes.insert(class_id, ClassInfo { metadata: info.metadata, locked: true });
        proof {
            let call = Call::LockCollection { principal, class_id, issuer };
            assert(self@ =~= old(self)@.after(call));
            lemma_step_keeps_inv(old(self)@, call);
        }
        Ok(
            Outcome {
                event: Event::CollectionLocked(principal.account(), class_id),
                ledger: None,
            },
        )
    }

    /// Proposes the resource `resource_id` for an instance: it is kept as
    /// pending, with the payload `payload`.
    ///
    /// `issuer` is the issuer that the asset ledger names for the class of
    /// the instance. Refused with [`Error::PermissionDenied`] where the
    /// caller is neither that issuer nor the protocol principal, else with
    /// [`Error::InstanceUnknown`] where the instance does not exist, else
    /// with [`Error::ResourceIdInUse`] where the instance has a resource of
    /// that identifier, else with [`Error::MetadataTooLong`] where the
    /// payload is longer than the limit.
    pub fn add_resource(
        &mut self,
        principal: Principal,
        class_id: ClassId,
        instance_id: InstanceId,
        resource_id: ResourceId,
        payload: Vec<u8>,
        issuer: Option<AccountId>,
    ) -> (r: Result<Outcome, Error>)
        requires
            old(self).inv(),
        ensures
            final(self).inv(),
            old(self)@.add_resource(
                principal,
                (class_id, instance_id),
                resource_id,
                payload@,
                issuer,
            ) == (match r {
                Ok(_) => Ok::<State, Error>(final(self)@),
                Err(e) => Err(e),
            }),
            r is Err ==> final(self)@ == old(self)@,
            r matches Ok(out) ==> out == (Outcome {
                event: Event::ResourceAdded(instance_id, resource_id),
                ledger: None,
            }),
    {
        if !is_authorized(principal, issuer) {
            return Err(Error::PermissionDenied);
        }
        if !self.instances.contains_key(&(class_id, instance_id)) {
            return Err(Error::InstanceUnknown);
        }
        if self.resources.contains_key(&(class_id, instance_id, resource_id)) {
            return Err(Error::ResourceIdInUse);
        }
        match validate_length(&payload, self.config.string_limit) {
            Err(e) => {
                return Err(e);
            },
            Ok(_) => {},
        }
        let ghost call = Call::AddResource {
            principal,
            key: (class_id, instance_id),
            resource_id,
            payload: payload@,
            issuer,
        };
        self.resources.insert(
            (class_id, instance_id, resource_id),
            ResourceInfo { payload, state: ResourceState::Pending },
        );
        proof {
            assert(self@ =~= old(self)@.after(call));
            lemma_step_keeps_inv(old(self)@, call);
        }
        Ok(Outcome { event: Event::ResourceAdded(instance_id, resource_id), ledger: None })
    }

    /// Accepts a pending resource of an instance: it is accepted from now
    /// on, and comes last in the priorities of the instance.
    ///
    /// `owner` is the owner that the asset ledger names for the instance.
    /// Refused with [`Error::PermissionDenied`] where the caller is neither
    /// that owner nor the protocol principal, else with
    /// [`Error::InstanceUnknown`] where the instance does not exist, else
    /// with [`Error::ResourceUnknown`] where it has no such resource, else
    /// with [`Error::ResourceNotPending`] where the resource is accepted
    /// already.
    pub fn accept(
        &mut self,
        principal: Principal,
        class_id: ClassId,
        instance_id: InstanceId,
        resource_id: ResourceId,
        owner: Option<AccountId>,
    ) -> (r: Result<Outcome, Error>)
        requires
            old(self).inv(),
        ensures
            final(self).inv(),
            old(self)@.accept(principal, (class_id, instance_id), resource_id, owner) == (match r {
                Ok(_) => Ok::<State, Error>(final(self)@),
                Err(e) => Err(e),
            }),
            r is Err ==> final(self)@ == old(self)@,
            r matches Ok(out) ==> out == (Outcome {
                event: Event::ResourceAccepted(instance_id, resource_id),
                ledger: None,
            }),
    {
        let key = (class_id, instance_id);
        let resource_key = (class_id, instance_id, resource_id);
        if !is_authorized(principal, owner) {
            return Err(Error::PermissionDenied);
        }
        if !self.instances.contains_key(&key) {
            return Err(Error::InstanceUnknown);
        }
        let pending = match self.resources.get(&resource_key) {
            None => {
                return Err(Error::ResourceUnknown);
            },
            Some(info) => match info.state {
                ResourceState::Pending => true,
                ResourceState::Accepted => false,
            },
        };
        if !pending {
            return Err(Error::ResourceNotPending);
        }
        let payload = match self.resources.remove(&resource_key) {
            Some(info) => info.payload,
            None => Vec::new(),
        };
        self.resources.insert(resource_key, ResourceInfo { payload, state: ResourceState::Accepted });
        let mut list = match self.priority.remove(&key) {
            Some(list) => list,
            None => Vec::new(),
        };
        list.push(resource_id);
        self.priority.insert(key, list);
        proof {
            let call = Call::Accept { principal, key, resource_id, owner };
            assert(self@ =~= old(self)@.after(call));
            lemma_step_keeps_inv(old(self)@, call);
        }
        Ok(Outcome { event: Event::ResourceAccepted(instance_id, resource_id), ledger: None })
    }

    /// Whether `ids` is a permutation of the accepted resources of an
    /// instance: it lists each of them once, and nothing else.
    pub fn is_priority_list(
        &self,
        class_id: ClassId,
        instance_id: InstanceId,
        ids: &Vec<ResourceId>,
    ) -> (b: bool)
        requires
            self.inv(),
        ensures
            b == self@.permutes(ids@, (class_id, instance_id)),
    {
        let key = (class_id, instance_id);
        let ghost current = self@.priority_of(key);
        assert(self@.priority_ok(key));
        let expected = match self.priority.get(&key) {
            Some(list) => list.len(),
            None => 0,
        };
        if ids.len() != expected {
            proof {
                if self@.permutes(ids@, key) {
                    lemma_permutations_same_length(self@, ids@, current, key);
                }
            }
            return false;
        }
        let mut j: usize = 0;
        while j < ids.len()
            invariant
                self.inv(),
                key == (class_id, instance_id),
                j <= ids@.len(),
                forall|a: int| 0 <= a < j ==> self@.accepted(key, #[trigger] ids@[a]),
                forall|a: int, b: int| 0 <= a < b < j ==> ids@[a] != ids@[b],
            decreases ids@.len() - j,
        {
            let id = ids[j];
            let accepted = match self.resources.get(&(class_id, instance_id, id)) {
                Some(info) => match info.state {
                    ResourceState::Accepted => true,
                    ResourceState::Pending => false,
                },
                None => false,
            };
            if !accepted {
                assert(ids@.contains(ids@[j as int]));
                return false;
            }
            let mut a: usize = 0;
            while a < j
                invariant
                    a <= j,
                    j < ids@.len(),
                    id == ids@[j as int],
                    forall|x: int| 0 <= x < a ==> ids@[x] != id,
                decreases j - a,
            {
                if ids[a] == id {
                    assert(ids@[a as int] == ids@[j as int] && a != j);
                    return false;
                }
                a += 1;
            }
            j += 1;
        }
        proof {
            assert(ids@.no_duplicates());
            lemma_permutation_by_count(self@, ids@, current, key);
        }
        true
    }

    /// Puts the accepted resources of an instance in the order of `ids`.
    ///
    /// `owner` is the owner that the asset ledger names for the instance.
    /// Refused with [`Error::PermissionDenied`] where the caller is neither
    /// that owner nor the protocol principal, else with
    /// [`Error::InstanceUnknown`] where the instance does not exist, else
    /// with [`Error::InvalidPriorityList`] unless `ids` is a permutation of
    /// the accepted resources of the instance.
    pub fn set_priority(
        &mut self,
        principal: Principal,
        class_id: ClassId,
        instance_id: InstanceId,
        ids: Vec<ResourceId>,
        owner: Option<AccountId>,
    ) -> (r: Result<Outcome, Error>)
        requires
            old(self).inv(),
        ensures
            final(self).inv(),
            old(self)@.set_priority(principal, (class_id, instance_id), ids@, owner) == (match r {
                Ok(_) => Ok::<State, Error>(final(self)@),
                Err(e) => Err(e),
            }),
            r is Err ==> final(self)@ == old(self)@,
            r matches Ok(out) ==> out == (Outcome {
                event: Event::PrioritySet(class_id, instance_id),
                ledger: None,
            }),
    {
        let key = (class_id, instance_id);
        if !is_authorized(principal, owner) {
            return Err(Error::PermissionDenied);
        }
        if !self.instances.contains_key(&key) {
            return Err(Error::InstanceUnknown);
        }
        if !self.is_priority_list(class_id, instance_id, &ids) {
            return Err(Error::InvalidPriorityList);
        }
        let ghost call = Call::SetPriority { principal, key, ids: ids@, owner };
        self.priority.insert(key, ids);
        proof {
            assert(self@ =~= old(self)@.after(call));
            lemma_step_keeps_inv(old(self)@, call);
        }
        Ok(Outcome { event: Event::PrioritySet(class_id, instance_id), ledger: None })
    }
}

} // verus!
