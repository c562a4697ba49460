//! What holds of the state machine over any sequence of calls.

use vstd::prelude::*;
use vstd::seq_lib::seq_to_set_is_finite;
use vstd::set_lib::lemma_subset_equality;
use crate::error::Error;
use crate::state::{authorized, InstanceKey, State};
use crate::types::{
    AccountId, ClassId, Config, InstanceId, Principal, ResourceId, ResourceState, ROYALTY_BOUND,
};

verus! {

/// One call of an operation, with what the asset ledger answered to the
/// lookup that the operation needs.
pub enum Call {
    AllocateClassId,
    AllocateInstanceId { class_id: ClassId },
    MintCollection { metadata: Seq<u8> },
    MintNft { class_id: ClassId, author: AccountId, royalty: u8, metadata: Seq<u8> },
    BurnNft { principal: Principal, key: InstanceKey, owner: Option<AccountId> },
    BurnCollection { principal: Principal, class_id: ClassId, issuer: Option<AccountId> },
    Send { principal: Principal, key: InstanceKey, owner: Option<AccountId> },
    ChangeIssuer { principal: Principal, class_id: ClassId, issuer: Option<AccountId> },
    SetProperty {
        principal: Principal,
        class_id: ClassId,
        instance_id: Option<InstanceId>,
        key: Seq<u8>,
        value: Seq<u8>,
        holder: Option<AccountId>,
    },
    LockCollection { principal: Principal, class_id: ClassId, issuer: Option<AccountId> },
    AddResource {
        principal: Principal,
        key: InstanceKey,
        resource_id: ResourceId,
        payload: Seq<u8>,
        issuer: Option<AccountId>,
    },
    Accept {
        principal: Principal,
        key: InstanceKey,
        resource_id: ResourceId,
        owner: Option<AccountId>,
    },
    SetPriority {
        principal: Principal,
        key: InstanceKey,
        ids: Seq<ResourceId>,
        owner: Option<AccountId>,
    },
}

impl State {
    /// What the call makes of the state, or why it is refused.
    pub open spec fn step(self, call: Call) -> Result<State, Error> {
        match call {
            Call::AllocateClassId => self.allocate_class_id(),
            Call::AllocateInstanceId { class_id } => self.allocate_instance_id(class_id),
            Call::MintCollection { metadata } => self.mint_collection(metadata),
            Call::MintNft { class_id, author, royalty, metadata } => self.mint_nft(
                class_id,
                author,
                royalty,
                metadata,
            ),
            Call::BurnNft { principal, key, owner } => self.burn_nft(principal, key, owner),
            Call::BurnCollection { principal, class_id, issuer } => self.burn_collection(
                principal,
                class_id,
                issuer,
            ),
            Call::Send { principal, key, owner } => self.send(principal, key, owner),
            Call::ChangeIssuer { principal, class_id, issuer } => self.change_issuer(
                principal,
                class_id,
                issuer,
            ),
            Call::SetProperty { principal, class_id, instance_id, key, value, holder } =>
                self.set_property(principal, class_id, instance_id, key, value, holder),
            Call::LockCollection { principal, class_id, issuer } => self.lock_collection(
                principal,
                class_id,
                issuer,
            ),
            Call::AddResource { principal, key, resource_id, payload, issuer } => self.add_resource(
                principal,
                key,
                resource_id,
                payload,
                issuer,
            ),
            Call::Accept { principal, key, resource_id, owner } => self.accept(
                principal,
                key,
                resource_id,
                owner,
            ),
            Call::SetPriority { principal, key, ids, owner } => self.set_priority(
                principal,
                key,
                ids,
                owner,
            ),
        }
    }

    /// The state after the call: a refused call leaves the state as it was.
    pub open spec fn after(self, call: Call) -> State {
        match self.step(call) {
            Ok(next) => next,
            Err(_) => self,
        }
    }

    /// The state after the calls, made in order.
    pub open spec fn run(self, calls: Seq<Call>) -> State
        decreases calls.len(),
    {
        if calls.len() == 0 {
            self
        } else {
            self.run(calls.drop_last()).after(calls.last())
        }
    }
}

/// Two permutations of the accepted resources of one instance have the same
/// length.
pub proof fn lemma_permutations_same_length(
    s: State,
    a: Seq<ResourceId>,
    b: Seq<ResourceId>,
    key: InstanceKey,
)
    requires
        s.permutes(a, key),
        s.permutes(b, key),
    ensures
        a.len() == b.len(),
{
    a.unique_seq_to_set();
    b.unique_seq_to_set();
    assert forall|r: ResourceId| a.to_set().contains(r) == b.to_set().contains(r) by {
        assert(a.contains(r) <==> s.accepted(key, r));
        assert(b.contains(r) <==> s.accepted(key, r));
    }
    assert(a.to_set() =~= b.to_set());
}

/// A list without duplicates that holds accepted resources of an instance
/// only, and as many as a permutation of them, is a permutation of them.
pub proof fn lemma_permutation_by_count(
    s: State,
    ids: Seq<ResourceId>,
    list: Seq<ResourceId>,
    key: InstanceKey,
)
    requires
        s.permutes(list, key),
        ids.no_duplicates(),
        forall|j: int| 0 <= j < ids.len() ==> s.accepted(key, #[trigger] ids[j]),
        ids.len() == list.len(),
    ensures
        s.permutes(ids, key),
{
    broadcast use seq_to_set_is_finite;

    ids.unique_seq_to_set();
    list.unique_seq_to_set();
    assert forall|r: ResourceId| ids.to_set().contains(r) implies list.to_set().contains(r) by {
        let j = choose|j: int| 0 <= j < ids.len() && ids[j] == r;
        assert(s.accepted(key, ids[j]));
        assert(list.contains(r) <==> s.accepted(key, r));
    }
    lemma_subset_equality(ids.to_set(), list.to_set());
    assert forall|r: ResourceId| #[trigger] ids.contains(r) <==> s.accepted(key, r) by {
        assert(list.contains(r) <==> s.accepted(key, r));
        assert(ids.to_set().contains(r) == list.to_set().contains(r));
        if ids.contains(r) {
            let j = choose|j: int| 0 <= j < ids.len() && ids[j] == r;
            assert(s.accepted(key, ids[j]));
        }
    }
}

/// Accepting a pending resource keeps the priorities of every instance a
/// permutation of its accepted resources.
proof fn lemma_accept_keeps_priorities(
    s: State,
    principal: Principal,
    key: InstanceKey,
    resource_id: ResourceId,
    owner: Option<AccountId>,
    next: State,
)
    requires
        s.inv(),
        s.accept(principal, key, resource_id, owner) == Ok::<State, Error>(next),
    ensures
        forall|k: InstanceKey| #[trigger] next.priority_ok(k),
{
    let rk = (key.0, key.1, resource_id);
    assert forall|k: InstanceKey| #[trigger] next.priority_ok(k) by {
        assert(s.priority_ok(k));
        let before = s.priority_of(k);
        let now = next.priority_of(k);
        if k == key {
            assert(now == before.push(resource_id));
            assert(!s.accepted(key, resource_id));
            assert(!before.contains(resource_id));
            assert forall|r: ResourceId| #[trigger] now.contains(r) <==> next.accepted(k, r) by {
                if now.contains(r) {
                    let j = choose|j: int| 0 <= j < now.len() && now[j] == r;
                    if j < before.len() {
                        assert(before[j] == r);
                        assert(before.contains(r));
                    }
                }
                if next.accepted(k, r) {
                    if r == resource_id {
                        assert(now[before.len() as int] == r);
                    } else {
                        assert(s.accepted(k, r));
                        assert(before.contains(r));
                        let j = choose|j: int| 0 <= j < before.len() && before[j] == r;
                        assert(now[j] == r);
                    }
                }
            }
            assert forall|a: int, b: int| 0 <= a < now.len() && 0 <= b < now.len() && a
                != b implies now[a] != now[b] by {
                if a < before.len() && b < before.len() {
                    assert(now[a] == before[a] && now[b] == before[b]);
                } else if a < before.len() {
                    assert(before.contains(before[a]));
                } else {
                    assert(before.contains(before[b]));
                }
            }
        } else {
            assert(now == before);
            assert forall|r: ResourceId| #[trigger] now.contains(r) <==> next.accepted(k, r) by {
                assert(before.contains(r) <==> s.accepted(k, r));
                assert((k.0, k.1, r) != rk);
            }
        }
    }
}

/// Burning an instance keeps the priorities of every instance a
/// permutation of its accepted resources.
proof fn lemma_burn_keeps_priorities(
    s: State,
    principal: Principal,
    key: InstanceKey,
    owner: Option<AccountId>,
    next: State,
)
    requires
        s.inv(),
        s.burn_nft(principal, key, owner) == Ok::<State, Error>(next),
    ensures
        forall|k: InstanceKey| #[trigger] next.priority_ok(k),
{
    assert forall|k: InstanceKey| #[trigger] next.priority_ok(k) by {
        assert(s.priority_ok(k));
        if k == key {
            assert(next.priority_of(k) =~= Seq::empty());
        } else {
            assert(next.priority_of(k) == s.priority_of(k));
            assert forall|r: ResourceId| #[trigger]
                next.priority_of(k).contains(r) <==> next.accepted(k, r) by {
                assert(s.priority_of(k).contains(r) <==> s.accepted(k, r));
            }
        }
    }
}

/// The priorities stay permutations where an operation leaves the
/// resources and the priorities as they were.
proof fn lemma_untouched_priorities(s: State, next: State)
    requires
        s.inv(),
        next.resources == s.resources,
        next.priority == s.priority,
    ensures
        forall|k: InstanceKey| #[trigger] next.priority_ok(k),
{
    assert forall|k: InstanceKey| #[trigger] next.priority_ok(k) by {
        assert(s.priority_ok(k));
        assert(next.priority_of(k) == s.priority_of(k));
        assert forall|r: ResourceId| #[trigger]
            next.priority_of(k).contains(r) <==> next.accepted(k, r) by {
            assert(s.priority_of(k).contains(r) <==> s.accepted(k, r));
        }
    }
}

/// The priorities stay permutations where a resource is proposed.
proof fn lemma_add_keeps_priorities(
    s: State,
    principal: Principal,
    key: InstanceKey,
    resource_id: ResourceId,
    payload: Seq<u8>,
    issuer: Option<AccountId>,
    next: State,
)
    requires
        s.inv(),
        s.add_resource(principal, key, resource_id, payload, issuer) == Ok::<State, Error>(next),
    ensures
        forall|k: InstanceKey| #[trigger] next.priority_ok(k),
{
    assert forall|k: InstanceKey| #[trigger] next.priority_ok(k) by {
        assert(s.priority_ok(k));
        assert(next.priority_of(k) == s.priority_of(k));
        assert forall|r: ResourceId| #[trigger]
            next.priority_of(k).contains(r) <==> next.accepted(k, r) by {
            assert(s.priority_of(k).contains(r) <==> s.accepted(k, r));
        }
    }
}

/// The priorities stay permutations where those of one instance are set to
/// a permutation of its accepted resources.
proof fn lemma_set_keeps_priorities(
    s: State,
    principal: Principal,
    key: InstanceKey,
    ids: Seq<ResourceId>,
    owner: Option<AccountId>,
    next: State,
)
    requires
        s.inv(),
        s.set_priority(principal, key, ids, owner) == Ok::<State, Error>(next),
    ensures
        forall|k: InstanceKey| #[trigger] next.priority_ok(k),
{
    assert forall|k: InstanceKey| #[trigger] next.priority_ok(k) by {
        assert(s.priority_ok(k));
        if k == key {
            assert(next.priority_of(k) == ids);
            assert forall|r: ResourceId| #[trigger] ids.contains(r) <==> next.accepted(k, r) by {
                assert(ids.contains(r) <==> s.accepted(k, r));
            }
        } else {
            assert(next.priority_of(k) == s.priority_of(k));
            assert forall|r: ResourceId| #[trigger]
                next.priority_of(k).contains(r) <==> next.accepted(k, r) by {
                assert(s.priority_of(k).contains(r) <==> s.accepted(k, r));
            }
        }
    }
}

/// The state in which nothing has been created is valid.
pub proof fn lemma_genesis_is_valid(config: Config, first_class_id: ClassId)
    ensures
        State::genesis(config, first_class_id).inv(),
{
    let s = State::genesis(config, first_class_id);
    assert forall|k: InstanceKey| #[trigger] s.priority_ok(k) by {
        assert(s.priority_of(k) =~= Seq::empty());
    }
}

/// Every call leaves a valid state valid: identifiers in use stay below
/// their counters, royalties below one hundred, stored byte strings within
/// the limit, and the priorities of each instance a permutation of its
/// accepted resources.
pub proof fn lemma_step_keeps_inv(s: State, call: Call)
    requires
        s.inv(),
    ensures
        s.after(call).inv(),
{
    let next = s.after(call);
    if s.step(call) is Ok {
        match call {
            Call::Accept { principal, key, resource_id, owner } => {
                lemma_accept_keeps_priorities(s, principal, key, resource_id, owner, next);
            },
            Call::BurnNft { principal, key, owner } => {
                lemma_burn_keeps_priorities(s, principal, key, owner, next);
                assert forall|k: InstanceKey| #[trigger] next.instances.contains_key(k) implies k.1
                    < next.instance_counter(k.0) by {
                    assert(s.instances.contains_key(k));
                }
            },
            Call::AddResource { principal, key, resource_id, payload, issuer } => {
                lemma_add_keeps_priorities(s, principal, key, resource_id, payload, issuer, next);
            },
            Call::SetPriority { principal, key, ids, owner } => {
                lemma_set_keeps_priorities(s, principal, key, ids, owner, next);
            },
            Call::MintNft { class_id, author, royalty, metadata } => {
                lemma_untouched_priorities(s, next);
                assert forall|k: InstanceKey| #[trigger] next.instances.contains_key(k) implies k.1
                    < next.instance_counter(k.0) by {
                    if k != (class_id, s.instance_counter(class_id)) {
                        assert(s.instances.contains_key(k));
                    }
                }
            },
            Call::AllocateInstanceId { class_id } => {
                lemma_untouched_priorities(s, next);
                assert forall|k: InstanceKey| #[trigger] next.instances.contains_key(k) implies k.1
                    < next.instance_counter(k.0) by {
                    assert(s.instances.contains_key(k));
                }
            },
            Call::BurnCollection { principal, class_id, issuer } => {
                lemma_untouched_priorities(s, next);
                assert forall|k: InstanceKey| #[trigger]
                    next.instances.contains_key(k) implies next.classes.contains_key(k.0) by {
                    assert(s.instances.contains_key(k));
                    assert(!s.instances.contains_key((class_id, k.1)));
                }
            },
            _ => {
                lemma_untouched_priorities(s, next);
            },
        }
    }
}

/// Every sequence of calls leaves a valid state valid.
pub proof fn lemma_run_keeps_inv(s: State, calls: Seq<Call>)
    requires
        s.inv(),
    ensures
        s.run(calls).inv(),
    decreases calls.len(),
{
    if calls.len() > 0 {
        lemma_run_keeps_inv(s, calls.drop_last());
        lemma_step_keeps_inv(s.run(calls.drop_last()), calls.last());
    }
}

/// Every state that the calls reach from the beginning is valid.
pub proof fn lemma_reachable_is_valid(config: Config, first_class_id: ClassId, calls: Seq<Call>)
    ensures
        State::genesis(config, first_class_id).run(calls).inv(),
{
    lemma_genesis_is_valid(config, first_class_id);
    lemma_run_keeps_inv(State::genesis(config, first_class_id), calls);
}

impl Call {
    /// Whether the call takes the next class identifier where it succeeds.
    pub open spec fn takes_class_id(self) -> bool {
        self is AllocateClassId || self is MintCollection
    }

    /// Whether the call takes the next instance identifier of class
    /// `class_id` where it succeeds.
    pub open spec fn takes_instance_id(self, class_id: ClassId) -> bool {
        ||| self matches Call::AllocateInstanceId { class_id: c } && c == class_id
        ||| self matches Call::MintNft { class_id: c, .. } && c == class_id
    }
}

/// No call changes the limits, and no call lowers a counter.
pub proof fn lemma_step_counters(s: State, call: Call)
    ensures
        s.after(call).config == s.config,
        s.after(call).next_class_id >= s.next_class_id,
        forall|c: ClassId| #[trigger] s.after(call).instance_counter(c) >= s.instance_counter(c),
{
}

/// No sequence of calls changes the limits or lowers a counter.
pub proof fn lemma_run_counters(s: State, calls: Seq<Call>)
    ensures
        s.run(calls).config == s.config,
        s.run(calls).next_class_id >= s.next_class_id,
        forall|c: ClassId| #[trigger] s.run(calls).instance_counter(c) >= s.instance_counter(c),
    decreases calls.len(),
{
    if calls.len() > 0 {
        let before = s.run(calls.drop_last());
        lemma_run_counters(s, calls.drop_last());
        lemma_step_counters(before, calls.last());
        assert forall|c: ClassId| #[trigger]
            s.run(calls).instance_counter(c) >= s.instance_counter(c) by {
            assert(before.after(calls.last()).instance_counter(c) >= before.instance_counter(c));
            assert(before.instance_counter(c) >= s.instance_counter(c));
        }
    }
}

/// A call that takes a class identifier gets the value of the counter, and
/// the counter then stands one higher.
pub proof fn lemma_class_id_taken(s: State, call: Call)
    requires
        call.takes_class_id(),
        s.step(call) is Ok,
    ensures
        s.after(call).next_class_id == s.next_class_id + 1,
        call is MintCollection ==> s.after(call).classes.contains_key(s.next_class_id),
{
}

/// A call that takes an instance identifier of a class gets the value of
/// the class's counter, and the counter then stands one higher.
pub proof fn lemma_instance_id_taken(s: State, call: Call, class_id: ClassId)
    requires
        call.takes_instance_id(class_id),
        s.step(call) is Ok,
    ensures
        s.after(call).instance_counter(class_id) == s.instance_counter(class_id) + 1,
        call is MintNft ==> s.after(call).instances.contains_key(
            (class_id, s.instance_counter(class_id)),
        ),
{
}

/// Class identifiers are strictly increasing: of two successful calls that
/// take one, the later gets a greater identifier than the earlier, whatever
/// is called in between. So no class identifier is given out twice.
pub proof fn lemma_class_ids_increase(s: State, first: Call, between: Seq<Call>, second: Call)
    requires
        first.takes_class_id(),
        second.takes_class_id(),
        s.step(first) is Ok,
        s.after(first).run(between).step(second) is Ok,
    ensures
        s.next_class_id < s.after(first).run(between).next_class_id,
{
    lemma_class_id_taken(s, first);
    lemma_run_counters(s.after(first), between);
}

/// Instance identifiers of one class are strictly increasing: of two
/// successful calls that take one, the later gets a greater identifier than
/// the earlier, whatever is called in between. So no instance identifier of
/// a class is given out twice, also after a burn.
pub proof fn lemma_instance_ids_increase(
    s: State,
    class_id: ClassId,
    first: Call,
    between: Seq<Call>,
    second: Call,
)
    requires
        first.takes_instance_id(class_id),
        second.takes_instance_id(class_id),
        s.step(first) is Ok,
        s.after(first).run(between).step(second) is Ok,
    ensures
        s.instance_counter(class_id) < s.after(first).run(between).instance_counter(class_id),
{
    lemma_instance_id_taken(s, first, class_id);
    lemma_run_counters(s.after(first), between);
}

/// An instance that has been minted has a royalty below one hundred and
/// metadata within the limit.
pub proof fn lemma_minted_is_valid(
    s: State,
    class_id: ClassId,
    author: AccountId,
    royalty: u8,
    metadata: Seq<u8>,
)
    requires
        s.mint_nft(class_id, author, royalty, metadata) is Ok,
    ensures
        ({
            let next = s.mint_nft(class_id, author, royalty, metadata)->Ok_0;
            let key = (class_id, s.instance_counter(class_id));
            &&& next.instances.contains_key(key)
            &&& next.instances[key].royalty == royalty
            &&& next.instances[key].royalty < ROYALTY_BOUND
            &&& next.instances[key].metadata == metadata
            &&& next.instances[key].metadata.len() <= s.config.string_limit
        }),
{
}

/// A resource is accepted only while it is pending, and accepting it a
/// second time is refused: whoever is entitled to accept it then gets
/// [`Error::ResourceNotPending`].
pub proof fn lemma_accept_twice(
    s: State,
    principal: Principal,
    key: InstanceKey,
    resource_id: ResourceId,
    owner: Option<AccountId>,
    again: Principal,
    owner_again: Option<AccountId>,
)
    requires
        s.accept(principal, key, resource_id, owner) is Ok,
        authorized(again, owner_again),
    ensures
        s.resources[(key.0, key.1, resource_id)].state == ResourceState::Pending,
        s.accept(principal, key, resource_id, owner)->Ok_0.accept(
            again,
            key,
            resource_id,
            owner_again,
        ) == Err::<State, Error>(Error::ResourceNotPending),
{
}

/// No call makes an accepted resource pending again: while the resource
/// exists, it stays accepted.
pub proof fn lemma_accepted_stays(s: State, call: Call, key: InstanceKey, resource_id: ResourceId)
    requires
        s.accepted(key, resource_id),
        s.after(call).resources.contains_key((key.0, key.1, resource_id)),
    ensures
        s.after(call).accepted(key, resource_id),
{
}

/// Where the caller is entitled and the instance exists, the priorities
/// are set if and only if the list is a permutation of the accepted
/// resources of the instance; any other list is refused with
/// [`Error::InvalidPriorityList`]. The new priorities are the list.
pub proof fn lemma_set_priority_iff(
    s: State,
    principal: Principal,
    key: InstanceKey,
    ids: Seq<ResourceId>,
    owner: Option<AccountId>,
)
    requires
        authorized(principal, owner),
        s.instances.contains_key(key),
    ensures
        s.set_priority(principal, key, ids, owner) is Ok <==> s.permutes(ids, key),
        !s.permutes(ids, key) ==> s.set_priority(principal, key, ids, owner) == Err::<
            State,
            Error,
        >(Error::InvalidPriorityList),
        s.permutes(ids, key) ==> s.set_priority(principal, key, ids, owner)->Ok_0.priority_of(key)
            == ids,
{
}

/// A list with a resource twice, with a resource that the instance has not
/// accepted, or without one that it has accepted, is no permutation of the
/// accepted resources.
pub proof fn lemma_not_a_permutation(s: State, ids: Seq<ResourceId>, key: InstanceKey)
    ensures
        (exists|i: int, j: int| 0 <= i < j < ids.len() && ids[i] == ids[j]) ==> !s.permutes(
            ids,
            key,
        ),
        (exists|i: int| 0 <= i < ids.len() && !s.accepted(key, ids[i])) ==> !s.permutes(ids, key),
        (exists|r: ResourceId| s.accepted(key, r) && !ids.contains(r)) ==> !s.permutes(ids, key),
{
    if exists|i: int| 0 <= i < ids.len() && !s.accepted(key, ids[i]) {
        let i = choose|i: int| 0 <= i < ids.len() && !s.accepted(key, ids[i]);
        assert(ids.contains(ids[i]));
    }
}

/// Where the caller is entitled and the class exists, burning the class is
/// refused with [`Error::CollectionNotEmpty`] as long as the class has an
/// instance, and succeeds once it has none.
pub proof fn lemma_burn_collection_iff(
    s: State,
    principal: Principal,
    class_id: ClassId,
    issuer: Option<AccountId>,
)
    requires
        authorized(principal, issuer),
        s.classes.contains_key(class_id),
    ensures
        s.has_instances(class_id) ==> s.burn_collection(principal, class_id, issuer) == Err::<
            State,
            Error,
        >(Error::CollectionNotEmpty),
        !s.has_instances(class_id) ==> s.burn_collection(principal, class_id, issuer) is Ok,
{
}

/// Burning the last instance of a class leaves the class without
/// instances, so that it can be burned.
pub proof fn lemma_burn_last_instance(
    s: State,
    principal: Principal,
    key: InstanceKey,
    owner: Option<AccountId>,
)
    requires
        s.burn_nft(principal, key, owner) is Ok,
        forall|i: InstanceId| #[trigger] s.instances.contains_key((key.0, i)) ==> i == key.1,
    ensures
        !s.burn_nft(principal, key, owner)->Ok_0.has_instances(key.0),
{
}

/// Once a class is locked, minting in it is refused with
/// [`Error::ClassLocked`], whatever is to be minted. Locking leaves the
/// instances, their resources and their priorities as they were.
pub proof fn lemma_locked_refuses_mint(
    s: State,
    principal: Principal,
    class_id: ClassId,
    issuer: Option<AccountId>,
    author: AccountId,
    royalty: u8,
    metadata: Seq<u8>,
)
    requires
        s.lock_collection(principal, class_id, issuer) is Ok,
    ensures
        ({
            let locked = s.lock_collection(principal, class_id, issuer)->Ok_0;
            &&& locked.mint_nft(class_id, author, royalty, metadata) == Err::<State, Error>(
                Error::ClassLocked,
            )
            &&& locked.instances == s.instances
            &&& locked.resources == s.resources
            &&& locked.priority == s.priority
            &&& locked.next_instance_id == s.next_instance_id
        }),
{
}

/// No call unlocks a class: while a locked class exists, it stays locked.
pub proof fn lemma_locked_stays(s: State, call: Call, class_id: ClassId)
    requires
        s.inv(),
        s.classes.contains_key(class_id),
        s.classes[class_id].locked,
        s.after(call).classes.contains_key(class_id),
    ensures
        s.after(call).classes[class_id].locked,
{
}

/// A refused call leaves the state as it was.
pub proof fn lemma_refused_changes_nothing(s: State, call: Call)
    requires
        s.step(call) is Err,
    ensures
        s.after(call) == s,
{
}

} // verus!
