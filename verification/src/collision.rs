use bevy_rapier3d::pipeline::CollisionEvent;
use vstd::prelude::*;

verus! {

/// The physics engine's notice that two colliders have started or stopped
/// touching. Nothing inside it is visible to the proofs.
#[verifier::external_type_specification]
#[verifier::external_body]
pub struct ExCollisionEvent(CollisionEvent);

/// Whether two colliders have started or stopped touching.
#[derive(Clone, Copy, Debug, PartialEq, Eq, Structural)]
pub enum ContactPhase {
    Started,
    Stopped,
}

/// A collision notice in plain values: the phase and the two entities, each
/// as the 64 bits that identify it.
#[derive(Clone, Copy, Debug, PartialEq, Eq, Structural)]
pub struct Contact {
    pub phase: ContactPhase,
    pub first: u64,
    pub second: u64,
}

/// What an entity is to the puzzle.
#[derive(Clone, Copy, Debug, PartialEq, Eq, Structural)]
pub enum Role {
    /// A player.
    Player,
    /// The lock with this index.
    Lock(usize),
    /// Anything else.
    Other,
}

/// The contact that a `bevy_rapier3d::pipeline::CollisionEvent` tells of:
/// its variant as the phase, and its two entities, in their order, each as
/// what `Entity::to_bits` makes of it. It depends on the notice alone.
pub uninterp spec fn contact_in(event: CollisionEvent) -> Contact;

/// The contacts that a run of collision notices tells of, in their order.
pub open spec fn contacts_in(events: Seq<CollisionEvent>) -> Seq<Contact> {
    events.map_values(|event: CollisionEvent| contact_in(event))
}

/// Unpacks a `bevy_rapier3d::pipeline::CollisionEvent`: the variant becomes
/// the phase, and each of the two entities is turned into its bits with
/// `Entity::to_bits`. The collision flags are dropped. The contract claims
/// only that the result is the contact that `contact_in` names, that is,
/// that the same notice always gives the same contact.
#[verifier::external_body]
pub(crate) fn contact_of(event: &CollisionEvent) -> (contact: Contact)
    ensures
        contact == contact_in(*event),
{
    match event {
        CollisionEvent::Started(a, b, _) => Contact {
            phase: ContactPhase::Started,
            first: a.to_bits(),
            second: b.to_bits(),
        },
        CollisionEvent::Stopped(a, b, _) => Contact {
            phase: ContactPhase::Stopped,
            first: a.to_bits(),
            second: b.to_bits(),
        },
    }
}

/// The least index at which `entity` stands in `entities`, if it does.
pub open spec fn first_index(entities: Seq<u64>, entity: u64) -> Option<int>
    decreases entities.len(),
{
    if entities.len() == 0 {
        None
    } else {
        match first_index(entities.drop_last(), entity) {
            Some(i) => Some(i),
            None => if entities.last() == entity {
                Some(entities.len() - 1)
            } else {
                None
            },
        }
    }
}

/// `first_index` finds an occurrence before which there is none, and finds
/// nothing only where there is none at all.
pub proof fn lemma_first_index(entities: Seq<u64>, entity: u64)
    ensures
        match first_index(entities, entity) {
            Some(i) => {
                &&& 0 <= i < entities.len()
                &&& entities[i] == entity
                &&& forall|k: int| 0 <= k < i ==> entities[k] != entity
            },
            None => forall|k: int| 0 <= k < entities.len() ==> entities[k] != entity,
        },
    decreases entities.len(),
{
    if entities.len() > 0 {
        let front = entities.drop_last();
        lemma_first_index(front, entity);
        assert(forall|k: int| 0 <= k < front.len() ==> front[k] == entities[k]);
    }
}

/// The role of `entity`, given the entities of the players and, in the order
/// of their indices, of the locks. One listed as both counts as a player.
pub open spec fn role_of(players: Seq<u64>, locks: Seq<u64>, entity: u64) -> Role {
    if first_index(players, entity) is Some {
        Role::Player
    } else {
        match first_index(locks, entity) {
            Some(i) => Role::Lock(i as usize),
            None => Role::Other,
        }
    }
}

/// The lock that a contact between these two concerns: one of the two has to
/// be a player and the other a lock.
pub open spec fn target_of(first: Role, second: Role) -> Option<usize> {
    match (first, second) {
        (Role::Player, Role::Lock(i)) => Some(i),
        (Role::Lock(i), Role::Player) => Some(i),
        _ => None,
    }
}

/// Looks `entity` up in `entities`.
pub fn find_entity(entities: &Vec<u64>, entity: u64) -> (found: Option<usize>)
    ensures
        match found {
            Some(i) => first_index(entities@, entity) == Some(i as int),
            None => first_index(entities@, entity) is None,
        },
{
    let n = entities.len();
    let mut k: usize = 0;
    while k < n
        invariant
            k <= n,
            n == entities@.len(),
            first_index(entities@.take(k as int), entity) is None,
        decreases n - k,
    {
        assert(entities@.take(k + 1).drop_last() == entities@.take(k as int));
        if entities[k] == entity {
            proof {
                lemma_first_index_prefix(entities@, entity, k + 1);
            }
            return Some(k);
        }
        k += 1;
    }
    assert(entities@.take(n as int) == entities@);
    None
}

/// An occurrence found in a prefix is the first in the whole.
pub proof fn lemma_first_index_prefix(entities: Seq<u64>, entity: u64, len: int)
    requires
        0 <= len <= entities.len(),
        first_index(entities.take(len), entity) is Some,
    ensures
        first_index(entities, entity) == first_index(entities.take(len), entity),
    decreases entities.len() - len,
{
    if len < entities.len() {
        assert(entities.take(len + 1).drop_last() == entities.take(len));
        lemma_first_index_prefix(entities, entity, len + 1);
    } else {
        assert(entities.take(len) == entities);
    }
}

/// Says what `entity` is to the puzzle.
pub fn classify(players: &Vec<u64>, locks: &Vec<u64>, entity: u64) -> (role: Role)
    ensures
        role == role_of(players@, locks@, entity),
{
    if find_entity(players, entity).is_some() {
        return Role::Player;
    }
    match find_entity(locks, entity) {
        Some(i) => Role::Lock(i),
        None => Role::Other,
    }
}

/// Picks the lock that a contact between the two concerns, if any.
pub fn target(first: Role, second: Role) -> (lock: Option<usize>)
    ensures
        lock == target_of(first, second),
{
    match (first, second) {
        (Role::Player, Role::Lock(i)) => Some(i),
        (Role::Lock(i), Role::Player) => Some(i),
        _ => None,
    }
}

} // verus!
