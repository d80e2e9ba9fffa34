use crate::collision::{
    classify, contact_in, contact_of, contacts_in, lemma_first_index, role_of, target, target_of,
    Contact, ContactPhase,
};
use crate::events::UnlockEvents;
use crate::gate::{Gate, GateModel};
use crate::lock::{GateLock, LockModel};
use crate::side::GateSide;
use crate::tally::{
    fired, lemma_receive_all, lemma_tally_bounds, lemma_tally_congruent, lemma_tick_tally, ticked,
    total_on_side, unlocked_on_side,
};
use bevy_rapier3d::pipeline::CollisionEvent;
use vstd::prelude::*;

verus! {

/// Where the map puts a lock: the entity that carries its sensor, and the
/// side it works for.
#[derive(Clone, Copy, Debug, PartialEq, Eq, Structural)]
pub struct LockPlacement {
    pub entity: u64,
    pub side: GateSide,
}

/// Where the map puts a gate: its side, and how many locks of that side have
/// to unlock before it opens.
#[derive(Clone, Copy, Debug, PartialEq, Eq, Structural)]
pub struct GatePlacement {
    pub side: GateSide,
    pub required_count: u64,
}

/// Why a gate of the map could never open.
#[derive(Clone, Copy, Debug, PartialEq, Eq, Structural)]
pub enum ConfigFault {
    /// It asks for no lock at all, so no unlock event ever brings its
    /// count to the threshold.
    NothingRequired,
    /// No lock belongs to its side.
    NoLocks,
    /// Locks belong to its side, but fewer than it asks for.
    TooFewLocks,
}

/// A map that was refused: the first gate that could never open, and why.
#[derive(Clone, Copy, Debug, PartialEq, Eq, Structural)]
pub struct ConfigError {
    pub gate: usize,
    pub fault: ConfigFault,
}

/// Number of placed locks that belong to `side`.
pub open spec fn placed_on_side(locks: Seq<LockPlacement>, side: GateSide) -> nat
    decreases locks.len(),
{
    if locks.len() == 0 {
        0
    } else {
        placed_on_side(locks.drop_last(), side) + if locks.last().side == side {
            1nat
        } else {
            0nat
        }
    }
}

/// What is wrong with a gate, given the locks of the map.
pub open spec fn fault_of(locks: Seq<LockPlacement>, gate: GatePlacement) -> Option<ConfigFault> {
    let available = placed_on_side(locks, gate.side);
    if gate.required_count == 0 {
        Some(ConfigFault::NothingRequired)
    } else if available == 0 {
        Some(ConfigFault::NoLocks)
    } else if available < gate.required_count {
        Some(ConfigFault::TooFewLocks)
    } else {
        None
    }
}

/// The locks of a map before anybody has touched them.
pub open spec fn fresh_locks(locks: Seq<LockPlacement>) -> Seq<LockModel> {
    locks.map_values(|placement: LockPlacement| LockModel::fresh(placement.side))
}

/// The gates of a map before any lock has unlocked.
pub open spec fn fresh_gates(gates: Seq<GatePlacement>) -> Seq<GateModel> {
    gates.map_values(
        |placement: GatePlacement| GateModel::fresh(placement.side, placement.required_count as nat),
    )
}

/// The puzzle as a mathematical value: the entities of the players, the
/// entity of each lock, the locks and the gates.
pub struct SceneModel {
    pub players: Seq<u64>,
    pub lock_entities: Seq<u64>,
    pub locks: Seq<LockModel>,
    pub gates: Seq<GateModel>,
}

impl SceneModel {
    /// The puzzle that a map describes.
    pub open spec fn initial(
        players: Seq<u64>,
        locks: Seq<LockPlacement>,
        gates: Seq<GatePlacement>,
    ) -> SceneModel {
        SceneModel {
            players,
            lock_entities: locks.map_values(|placement: LockPlacement| placement.entity),
            locks: fresh_locks(locks),
            gates: fresh_gates(gates),
        }
    }

    /// What holds of gate `j` within the puzzle: it has counted exactly the
    /// locks of its side that have unlocked, and asks for at least one lock
    /// and for no more than its side has.
    pub open spec fn gate_agrees(self, j: int) -> bool {
        let gate = self.gates[j];
        &&& gate.wf()
        &&& gate.unlocked_count == unlocked_on_side(self.locks, gate.side)
        &&& 1 <= gate.required_count <= total_on_side(self.locks, gate.side)
    }

    /// Every lock has its entity, every lock and gate is in order, and every
    /// gate agrees with the locks.
    pub open spec fn wf(self) -> bool {
        &&& self.lock_entities.len() == self.locks.len()
        &&& self.locks.len() <= usize::MAX
        &&& forall|i: int| 0 <= i < self.locks.len() ==> (#[trigger] self.locks[i]).wf()
        &&& forall|j: int| 0 <= j < self.gates.len() ==> #[trigger] self.gate_agrees(j)
    }

    /// The lock that a contact concerns, if it is one between a player and a
    /// lock.
    pub open spec fn target(self, contact: Contact) -> Option<usize> {
        target_of(
            role_of(self.players, self.lock_entities, contact.first),
            role_of(self.players, self.lock_entities, contact.second),
        )
    }

    /// The puzzle after a contact: the lock that it concerns is told that the
    /// player has come or gone; any other contact changes nothing.
    pub open spec fn contact(self, contact: Contact) -> SceneModel {
        match self.target(contact) {
            Some(i) if i < self.locks.len() => SceneModel {
                players: self.players,
                lock_entities: self.lock_entities,
                locks: self.locks.update(
                    i as int,
                    if contact.phase is Started {
                        self.locks[i as int].begin()
                    } else {
                        self.locks[i as int].end()
                    },
                ),
                gates: self.gates,
            },
            _ => self,
        }
    }

    /// The puzzle after a run of contacts, first to last.
    pub open spec fn contact_all(self, contacts: Seq<Contact>) -> SceneModel
        decreases contacts.len(),
    {
        if contacts.len() == 0 {
            self
        } else {
            self.contact_all(contacts.drop_last()).contact(contacts.last())
        }
    }

    /// The puzzle after an update cycle of `dt` microseconds: every lock
    /// ticks; every gate takes in every event that the locks announce in
    /// doing so, and then ticks in its turn.
    pub open spec fn update(self, dt: nat) -> SceneModel {
        let events = fired(self.locks, dt);
        SceneModel {
            players: self.players,
            lock_entities: self.lock_entities,
            locks: ticked(self.locks, dt),
            gates: self.gates.map_values(|gate: GateModel| gate.receive_all(events).tick(dt)),
        }
    }
}

/// Fresh locks are as many on each side as the map places there, and none of
/// them has unlocked.
pub proof fn lemma_fresh_tally(locks: Seq<LockPlacement>, side: GateSide)
    ensures
        total_on_side(fresh_locks(locks), side) == placed_on_side(locks, side),
        unlocked_on_side(fresh_locks(locks), side) == 0,
    decreases locks.len(),
{
    if locks.len() > 0 {
        lemma_fresh_tally(locks.drop_last(), side);
        assert(fresh_locks(locks).drop_last() == fresh_locks(locks.drop_last()));
    }
}

/// A map without a faulty gate describes a puzzle that is in order.
pub proof fn lemma_initial_wf(
    players: Seq<u64>,
    locks: Seq<LockPlacement>,
    gates: Seq<GatePlacement>,
)
    requires
        locks.len() <= usize::MAX,
        forall|j: int| 0 <= j < gates.len() ==> fault_of(locks, #[trigger] gates[j]) is None,
    ensures
        SceneModel::initial(players, locks, gates).wf(),
{
    let scene = SceneModel::initial(players, locks, gates);
    assert forall|j: int| 0 <= j < scene.gates.len() implies #[trigger] scene.gate_agrees(j) by {
        lemma_fresh_tally(locks, gates[j].side);
        assert(fault_of(locks, gates[j]) is None);
    }
}

/// A contact leaves a puzzle that is in order in order: stepping on or off a
/// lock never makes or unmakes an unlocked lock.
pub proof fn lemma_contact_wf(scene: SceneModel, contact: Contact)
    requires
        scene.wf(),
    ensures
        scene.contact(contact).wf(),
{
    let after = scene.contact(contact);
    assert forall|j: int| 0 <= j < after.gates.len() implies #[trigger] after.gate_agrees(j) by {
        assert(scene.gate_agrees(j));
        lemma_tally_congruent(scene.locks, after.locks, scene.gates[j].side);
    }
}

/// So does any run of contacts, and it changes no gate.
pub proof fn lemma_contact_all_wf(scene: SceneModel, contacts: Seq<Contact>)
    requires
        scene.wf(),
    ensures
        scene.contact_all(contacts).wf(),
        scene.contact_all(contacts).gates == scene.gates,
    decreases contacts.len(),
{
    if contacts.len() > 0 {
        lemma_contact_all_wf(scene, contacts.drop_last());
        lemma_contact_wf(scene.contact_all(contacts.drop_last()), contacts.last());
    }
}

/// An update cycle leaves a puzzle that is in order in order: each gate has
/// then counted the locks that unlocked in this cycle too.
pub proof fn lemma_update_wf(scene: SceneModel, dt: nat)
    requires
        scene.wf(),
    ensures
        scene.update(dt).wf(),
{
    let after = scene.update(dt);
    let events = fired(scene.locks, dt);
    assert forall|j: int| 0 <= j < after.gates.len() implies #[trigger] after.gate_agrees(j) by {
        let gate = scene.gates[j];
        assert(scene.gate_agrees(j));
        lemma_tick_tally(scene.locks, dt, gate.side);
        lemma_tally_bounds(after.locks, gate.side);
        lemma_receive_all(gate, events);
    }
}

/// In a puzzle that is in order a gate is closed exactly as long as fewer
/// locks of its side have unlocked than it asks for. So it leaves `Closed`
/// only once enough of them have, and has left it when all of them have.
pub proof fn lemma_closed_until_enough(scene: SceneModel, j: int)
    requires
        scene.wf(),
        0 <= j < scene.gates.len(),
    ensures
        scene.gates[j].state is Closed <==> unlocked_on_side(scene.locks, scene.gates[j].side)
            < scene.gates[j].required_count,
        unlocked_on_side(scene.locks, scene.gates[j].side) == total_on_side(
            scene.locks,
            scene.gates[j].side,
        ) ==> !(scene.gates[j].state is Closed),
{
    assert(scene.gate_agrees(j));
}

/// A contact that is not between a player and a lock changes nothing, and
/// one that is changes that one lock and nothing else.
pub proof fn lemma_contact_is_local(scene: SceneModel, contact: Contact)
    requires
        scene.wf(),
    ensures
        scene.target(contact) is None ==> scene.contact(contact) == scene,
        !(role_of(scene.players, scene.lock_entities, contact.first) is Player) && !(role_of(
            scene.players,
            scene.lock_entities,
            contact.second,
        ) is Player) ==> scene.contact(contact) == scene,
        scene.contact(contact).players == scene.players,
        scene.contact(contact).lock_entities == scene.lock_entities,
        scene.contact(contact).gates == scene.gates,
        scene.contact(contact).locks.len() == scene.locks.len(),
        forall|i: int|
            0 <= i < scene.locks.len() && scene.target(contact) != Some(i as usize)
                ==> #[trigger] scene.contact(contact).locks[i] == scene.locks[i],
        forall|i: int|
            0 <= i < scene.locks.len() && scene.target(contact) == Some(i as usize)
                ==> #[trigger] scene.contact(contact).locks[i] == if contact.phase is Started {
                scene.locks[i].begin()
            } else {
                scene.locks[i].end()
            },
{
}

/// A collision notice that comes twice counts once.
pub proof fn lemma_repeated_contact(scene: SceneModel, contact: Contact)
    ensures
        scene.contact(contact).contact(contact) == scene.contact(contact),
{
    let once = scene.contact(contact);
    let twice = once.contact(contact);
    assert(once.target(contact) == scene.target(contact));
    match scene.target(contact) {
        Some(i) if i < scene.locks.len() => {
            assert(twice.locks =~= once.locks);
        },
        _ => {},
    }
}

/// The locks of a row as mathematical values.
pub open spec fn lock_views(locks: Seq<GateLock>) -> Seq<LockModel> {
    locks.map_values(|lock: GateLock| lock@)
}

/// The gates of a row as mathematical values.
pub open spec fn gate_views(gates: Seq<Gate>) -> Seq<GateModel> {
    gates.map_values(|gate: Gate| gate@)
}

/// The puzzle of one map: its locks and gates, and the entities by which the
/// physics engine speaks of the players and the locks.
pub struct Scene {
    players: Vec<u64>,
    lock_entities: Vec<u64>,
    locks: Vec<GateLock>,
    gates: Vec<Gate>,
}

impl View for Scene {
    type V = SceneModel;

    closed spec fn view(&self) -> SceneModel {
        SceneModel {
            players: self.players@,
            lock_entities: self.lock_entities@,
            locks: lock_views(self.locks@),
            gates: gate_views(self.gates@),
        }
    }
}

/// Counts the placed locks that belong to `side`.
fn count_placed(locks: &Vec<LockPlacement>, side: GateSide) -> (count: usize)
    ensures
        count == placed_on_side(locks@, side),
{
    let n = locks.len();
    let mut count: usize = 0;
    let mut k: usize = 0;
    while k < n
        invariant
            k <= n,
            n == locks@.len(),
            count <= k,
            count == placed_on_side(locks@.take(k as int), side),
        decreases n - k,
    {
        assert(locks@.take(k + 1).drop_last() == locks@.take(k as int));
        if locks[k].side == side {
            count += 1;
        }
        k += 1;
    }
    assert(locks@.take(n as int) == locks@);
    count
}

/// Says what is wrong with a gate of the map, if anything is.
pub fn check_gate(locks: &Vec<LockPlacement>, gate: GatePlacement) -> (fault: Option<ConfigFault>)
    ensures
        fault == fault_of(locks@, gate),
{
    if gate.required_count == 0 {
        return Some(ConfigFault::NothingRequired);
    }
    let available = count_placed(locks, gate.side);
    if available == 0 {
        Some(ConfigFault::NoLocks)
    } else if (available as u64) < gate.required_count {
        Some(ConfigFault::TooFewLocks)
    } else {
        None
    }
}

impl Scene {
    #[verifier::type_invariant]
    spec fn inv(self) -> bool {
        self@.wf()
    }

    /// A puzzle without players, locks or gates: that of an empty map.
    fn empty() -> (scene: Scene)
        ensures
            scene@ == SceneModel::initial(Seq::empty(), Seq::empty(), Seq::empty()),
            scene@.wf(),
    {
        let scene = Scene {
            players: Vec::new(),
            lock_entities: Vec::new(),
            locks: Vec::new(),
            gates: Vec::new(),
        };
        proof {
            let model = SceneModel::initial(Seq::empty(), Seq::empty(), Seq::empty());
            assert(scene@.players =~= model.players);
            assert(scene@.lock_entities =~= model.lock_entities);
            assert(scene@.locks =~= model.locks);
            assert(scene@.gates =~= model.gates);
        }
        scene
    }

    /// Sets the puzzle up from a map: the entities of the players, the locks
    /// and the gates. A map with a gate that could never open is refused, with
    /// the first such gate and what is wrong with it.
    pub fn new(players: Vec<u64>, locks: Vec<LockPlacement>, gates: Vec<GatePlacement>) -> (made:
        Result<Scene, ConfigError>)
        ensures
            match made {
                Ok(scene) => {
                    &&& forall|j: int|
                        0 <= j < gates@.len() ==> fault_of(locks@, #[trigger] gates@[j]) is None
                    &&& scene@ == SceneModel::initial(players@, locks@, gates@)
                    &&& scene@.wf()
                },
                Err(error) => {
                    &&& error.gate < gates@.len()
                    &&& fault_of(locks@, gates@[error.gate as int]) == Some(error.fault)
                    &&& forall|j: int|
                        0 <= j < error.gate ==> fault_of(locks@, #[trigger] gates@[j]) is None
                },
            },
    {
        let lock_count = locks.len();
        let gate_count = gates.len();
        let mut made_gates: Vec<Gate> = Vec::new();
        let mut j: usize = 0;
        while j < gate_count
            invariant
                j <= gate_count,
                gate_count == gates@.len(),
                made_gates@.len() == j,
                forall|k: int| 0 <= k < j ==> fault_of(locks@, #[trigger] gates@[k]) is None,
                forall|k: int|
                    0 <= k < j ==> (#[trigger] made_gates@[k])@ == GateModel::fresh(
                        gates@[k].side,
                        gates@[k].required_count as nat,
                    ),
            decreases gate_count - j,
        {
            let placement = gates[j];
            if let Some(fault) = check_gate(&locks, placement) {
                return Err(ConfigError { gate: j, fault });
            }
            made_gates.push(Gate::new(placement.side, placement.required_count));
            j += 1;
        }
        let mut lock_entities: Vec<u64> = Vec::new();
        let mut made_locks: Vec<GateLock> = Vec::new();
        let mut i: usize = 0;
        while i < lock_count
            invariant
                i <= lock_count,
                lock_count == locks@.len(),
                lock_entities@.len() == i,
                made_locks@.len() == i,
                forall|k: int| 0 <= k < i ==> lock_entities@[k] == locks@[k].entity,
                forall|k: int|
                    0 <= k < i ==> (#[trigger] made_locks@[k])@ == LockModel::fresh(locks@[k].side),
            decreases lock_count - i,
        {
            let placement = locks[i];
            lock_entities.push(placement.entity);
            made_locks.push(GateLock::new(placement.side));
            i += 1;
        }
        proof {
            let model = SceneModel::initial(players@, locks@, gates@);
            assert(lock_entities@ =~= model.lock_entities);
            assert(lock_views(made_locks@) =~= model.locks);
            assert(gate_views(made_gates@) =~= model.gates);
            lemma_initial_wf(players@, locks@, gates@);
        }
        Ok(Scene { players, lock_entities, locks: made_locks, gates: made_gates })
    }

    /// Number of locks.
    pub fn lock_count(&self) -> (count: usize)
        ensures
            count == self@.locks.len(),
    {
        self.locks.len()
    }

    /// Number of gates.
    pub fn gate_count(&self) -> (count: usize)
        ensures
            count == self@.gates.len(),
    {
        self.gates.len()
    }

    /// Lock number `i`, as it stands now.
    pub fn lock(&self, i: usize) -> (lock: Option<GateLock>)
        ensures
            match lock {
                Some(lock) => i < self@.locks.len() && lock@ == self@.locks[i as int],
                None => i >= self@.locks.len(),
            },
    {
        if i < self.locks.len() {
            Some(self.locks[i])
        } else {
            None
        }
    }

    /// Gate number `j`, as it stands now.
    pub fn gate(&self, j: usize) -> (gate: Option<Gate>)
        ensures
            match gate {
                Some(gate) => j < self@.gates.len() && gate@ == self@.gates[j as int],
                None => j >= self@.gates.len(),
            },
    {
        if j < self.gates.len() {
            Some(self.gates[j])
        } else {
            None
        }
    }

    /// Takes in one collision notice. Where it is between a player and a
    /// lock, the lock learns that the player has come or gone; any other
    /// notice is ignored.
    pub fn handle_contact(&mut self, contact: Contact)
        ensures
            final(self)@ == old(self)@.contact(contact),
            final(self)@.wf(),
    {
        proof {
            use_type_invariant(&*self);
            lemma_contact_wf(self@, contact);
            lemma_first_index(self.lock_entities@, contact.first);
            lemma_first_index(self.lock_entities@, contact.second);
        }
        let first = classify(&self.players, &self.lock_entities, contact.first);
        let second = classify(&self.players, &self.lock_entities, contact.second);
        if let Some(i) = target(first, second) {
            let mut taken = Scene::empty();
            core::mem::swap(self, &mut taken);
            let Scene { players, lock_entities, mut locks, gates } = taken;
            let ghost old_locks = locks@;
            let mut lock = locks[i];
            match contact.phase {
                ContactPhase::Started => lock.on_contact_begin(),
                ContactPhase::Stopped => lock.on_contact_end(),
            }
            locks.set(i, lock);
            assert(lock_views(locks@) =~= lock_views(old_locks).update(i as int, lock@));
            *self = Scene { players, lock_entities, locks, gates };
        }
    }

    /// Takes in the collision notices of one cycle, first to last.
    pub fn handle_contacts(&mut self, contacts: &Vec<Contact>)
        ensures
            final(self)@ == old(self)@.contact_all(contacts@),
            final(self)@.wf(),
    {
        proof {
            use_type_invariant(&*self);
        }
        let ghost before = self@;
        let n = contacts.len();
        let mut k: usize = 0;
        while k < n
            invariant
                k <= n,
                n == contacts@.len(),
                self@ == before.contact_all(contacts@.take(k as int)),
                self@.wf(),
            decreases n - k,
        {
            assert(contacts@.take(k + 1).drop_last() == contacts@.take(k as int));
            self.handle_contact(contacts[k]);
            k += 1;
        }
        assert(contacts@.take(n as int) == contacts@);
    }

    /// Takes in one collision notice as the physics engine hands it out: it
    /// is unpacked into a contact, and the contact is handled.
    pub fn handle_collision(&mut self, event: &CollisionEvent)
        ensures
            final(self)@ == old(self)@.contact(contact_in(*event)),
            final(self)@.wf(),
    {
        let contact = contact_of(event);
        self.handle_contact(contact);
    }

    /// Takes in the collision notices of one cycle as the physics engine
    /// hands them out, first to last: each is unpacked into a contact, and
    /// the contacts are handled in that order.
    pub fn handle_collisions(&mut self, events: &Vec<CollisionEvent>)
        ensures
            final(self)@ == old(self)@.contact_all(contacts_in(events@)),
            final(self)@.wf(),
    {
        let n = events.len();
        let mut contacts: Vec<Contact> = Vec::new();
        let mut k: usize = 0;
        while k < n
            invariant
                k <= n,
                n == events@.len(),
                contacts@.len() == k,
                forall|i: int| 0 <= i < k ==> contacts@[i] == contact_in(events@[i]),
            decreases n - k,
        {
            contacts.push(contact_of(&events[k]));
            k += 1;
        }
        assert(contacts@ =~= contacts_in(events@));
        self.handle_contacts(&contacts);
    }

    /// Runs one update cycle of `dt` microseconds: the locks tick, the events
    /// that they announce reach every gate, and the gates tick.
    pub fn update(&mut self, dt: u64)
        ensures
            final(self)@ == old(self)@.update(dt as nat),
            final(self)@.wf(),
    {
        proof {
            use_type_invariant(&*self);
            lemma_update_wf(self@, dt as nat);
        }
        let ghost before = self@;
        let mut taken = Scene::empty();
        core::mem::swap(self, &mut taken);
        let Scene { players, lock_entities, mut locks, mut gates } = taken;
        let ghost old_locks = locks@;
        let ghost old_gates = gates@;
        let mut events = UnlockEvents::new();
        let lock_count = locks.len();
        let mut i: usize = 0;
        while i < lock_count
            invariant
                i <= lock_count,
                lock_count == locks@.len(),
                old_locks.len() == lock_count,
                events@ == fired(lock_views(old_locks).take(i as int), dt as nat),
                forall|k: int| 0 <= k < i ==> (#[trigger] locks@[k])@ == old_locks[k]@.tick(dt as nat),
                forall|k: int| i <= k < lock_count ==> locks@[k] == old_locks[k],
            decreases lock_count - i,
        {
            assert(lock_views(old_locks).take(i + 1).drop_last() == lock_views(old_locks).take(
                i as int,
            ));
            let mut lock = locks[i];
            if let Some(event) = lock.tick(dt) {
                events.send(event);
            }
            locks.set(i, lock);
            i += 1;
        }
        assert(lock_views(old_locks).take(lock_count as int) == lock_views(old_locks));
        let ghost sent = events@;
        events.deliver(&mut gates);
        let gate_count = gates.len();
        let mut j: usize = 0;
        while j < gate_count
            invariant
                j <= gate_count,
                gate_count == gates@.len(),
                old_gates.len() == gate_count,
                forall|k: int|
                    0 <= k < j ==> (#[trigger] gates@[k])@ == old_gates[k]@.receive_all(sent).tick(
                        dt as nat,
                    ),
                forall|k: int|
                    j <= k < gate_count ==> (#[trigger] gates@[k])@ == old_gates[k]@.receive_all(
                        sent,
                    ),
            decreases gate_count - j,
        {
            let mut gate = gates[j];
            gate.tick(dt);
            gates.set(j, gate);
            j += 1;
        }
        proof {
            let after = before.update(dt as nat);
            assert(lock_views(locks@) =~= after.locks);
            assert(gate_views(gates@) =~= after.gates);
        }
        *self = Scene { players, lock_entities, locks, gates };
    }
}

} // verus!
