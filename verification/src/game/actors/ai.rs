//! Behaviour that runs by itself, on a timer.

use std::marker::PhantomData;
use vstd::prelude::*;
use crate::game::timer::{carry, fires, rounds_due, RepeatingTimer};
use crate::game::world::{ai_in, entity, live, Component, EntityId, EntityView, World};

verus! {

/// The time between two rounds of behaviour, in the time units of the
/// timer that counts it.
pub const AI_PERIOD: u64 = 30;

/// The timer that paces behaviour.
#[derive(Clone, Copy, Debug)]
pub struct AiTimer(pub RepeatingTimer);

impl AiTimer {
    /// A timer that fires every `period` time units.
    pub fn new(period: u64) -> (t: AiTimer)
        requires
            period > 0,
        ensures
            t.0.wf(),
            t.0.period() == period,
            t.0.accumulated() == 0,
            t.0.times_finished_this_tick() == 0,
    {
        AiTimer(RepeatingTimer::new(period))
    }
}

/// Marks an entity as driven by the registered behaviour with this number.
#[derive(Clone, Copy, Debug, PartialEq, Eq, Structural)]
pub struct AiBehavior(pub usize);

/// A behaviour that can be registered: it is handed the entity it drives
/// and the whole world, and may read and change any of it. It must leave
/// the store sound and may not remove entities.
pub trait AiSystem {
    /// Whether one run of this behaviour for `entity` may turn the world
    /// `before` into the world `after`. A behaviour that says nothing of
    /// itself may do anything.
    open spec fn turn(
        &self,
        entity: EntityId,
        before: Seq<EntityView>,
        after: Seq<EntityView>,
    ) -> bool {
        true
    }

    fn run(&self, entity: EntityId, world: &mut World)
        requires
            old(world).wf(),
        ensures
            final(world).wf(),
            final(world)@.len() >= old(world)@.len(),
            self.turn(entity, old(world)@, final(world)@),
    ;
}

/// The behaviours that entities can be driven by, numbered from zero in the
/// order in which they were registered.
pub struct AiRegistry {
    systems: Vec<Registered<Box<dyn AiSystem>>>,
}

/// One registered behaviour.
struct Registered<S> {
    system: S,
}

impl<S> Registered<S> {
    fn new(system: S) -> (entry: Registered<S>)
        ensures
            entry == (Registered { system }),
            entry.system == system,
    {
        Registered { system }
    }
}

impl AiRegistry {
    /// The number of registered behaviours.
    pub closed spec fn spec_len(&self) -> nat {
        self.systems@.len()
    }

    /// Whether one run of the behaviour registered under `id`, for
    /// `entity`, may turn the world `before` into the world `after`.
    pub closed spec fn turn_of(
        &self,
        id: AiBehavior,
        entity: EntityId,
        before: Seq<EntityView>,
        after: Seq<EntityView>,
    ) -> bool {
        self.systems@[id.0 as int].system.turn(entity, before, after)
    }

    /// Whether handling one entry of a schedule may turn the world `before`
    /// into the world `after`: the behaviour that the entry names runs once
    /// for the entity that the entry names; an entry with a number that
    /// nothing is registered under leaves the world as it is.
    pub open spec fn step(
        &self,
        entry: (EntityId, AiBehavior),
        before: Seq<EntityView>,
        after: Seq<EntityView>,
    ) -> bool {
        let (entity, id) = entry;
        if id.0 < self.spec_len() {
            self.turn_of(id, entity, before, after)
        } else {
            after == before
        }
    }

    /// Whether handling the entries of `schedule`, one after the other,
    /// may turn the world `before` into the world `after`.
    pub open spec fn round(
        &self,
        schedule: Seq<(EntityId, AiBehavior)>,
        before: Seq<EntityView>,
        after: Seq<EntityView>,
    ) -> bool
        decreases schedule.len(),
    {
        if schedule.len() == 0 {
            after == before
        } else {
            exists|mid: Seq<EntityView>|
                self.round(schedule.drop_last(), before, mid) && #[trigger] self.step(
                    schedule.last(),
                    mid,
                    after,
                )
        }
    }

    /// Whether `count` rounds of behaviour, one after the other, may turn
    /// the world `before` into the world `after`. Each round handles the
    /// entities that a behaviour drives when the round begins.
    pub open spec fn rounds(
        &self,
        count: nat,
        before: Seq<EntityView>,
        after: Seq<EntityView>,
    ) -> bool
        decreases count,
    {
        if count == 0 {
            after == before
        } else {
            exists|mid: Seq<EntityView>|
                self.rounds((count - 1) as nat, before, mid) && #[trigger] self.round(
                    scheduled(mid, mid.len()),
                    mid,
                    after,
                )
        }
    }

    /// A round is made of the round up to its last entry and that entry's
    /// step.
    pub proof fn lemma_round_extends(
        &self,
        schedule: Seq<(EntityId, AiBehavior)>,
        before: Seq<EntityView>,
        mid: Seq<EntityView>,
        after: Seq<EntityView>,
    )
        requires
            schedule.len() > 0,
            self.round(schedule.drop_last(), before, mid),
            self.step(schedule.last(), mid, after),
        ensures
            self.round(schedule, before, after),
    {
    }

    /// Rounds are made of the rounds before the last and the last round.
    pub proof fn lemma_rounds_extend(
        &self,
        count: nat,
        before: Seq<EntityView>,
        mid: Seq<EntityView>,
        after: Seq<EntityView>,
    )
        requires
            self.rounds(count, before, mid),
            self.round(scheduled(mid, mid.len()), mid, after),
        ensures
            self.rounds(count + 1, before, after),
    {
        assert((((count + 1) as nat) - 1) as nat == count);
    }

    /// A registry without behaviours.
    pub fn new() -> (r: AiRegistry)
        ensures
            r.spec_len() == 0,
    {
        AiRegistry { systems: Vec::new() }
    }

    /// The number of registered behaviours.
    pub fn len(&self) -> (n: usize)
        ensures
            n == self.spec_len(),
    {
        self.systems.len()
    }

    /// Registers `system` and returns the number that it runs under. The
    /// behaviours registered before keep their numbers.
    pub fn register_system(&mut self, system: Box<dyn AiSystem>) -> (id: AiBehavior)
        ensures
            id.0 == old(self).spec_len(),
            final(self).spec_len() == old(self).spec_len() + 1,
            forall|e: EntityId, b: Seq<EntityView>, a: Seq<EntityView>| #[trigger]
                final(self).turn_of(id, e, b, a) == system.turn(e, b, a),
            forall|i: AiBehavior, e: EntityId, b: Seq<EntityView>, a: Seq<EntityView>|
                i.0 < old(self).spec_len() ==> #[trigger] final(self).turn_of(i, e, b, a) == old(
                    self,
                ).turn_of(i, e, b, a),
    {
        let id = AiBehavior(self.systems.len());
        let entry = Registered::new(system);
        self.systems.push(entry);
        id
    }

    /// Registers the behaviour of the species `M` and returns the number
    /// that it runs under: from then on, a run under that number is one turn
    /// of a monster of that species. The behaviours registered before keep
    /// their numbers.
    pub fn register_species<M: Species>(&mut self) -> (id: AiBehavior)
        ensures
            id.0 == old(self).spec_len(),
            final(self).spec_len() == old(self).spec_len() + 1,
            forall|e: EntityId, b: Seq<EntityView>, a: Seq<EntityView>| #[trigger]
                final(self).turn_of(id, e, b, a) == M::turn(e, b, a),
            forall|i: AiBehavior, e: EntityId, b: Seq<EntityView>, a: Seq<EntityView>|
                i.0 < old(self).spec_len() ==> #[trigger] final(self).turn_of(i, e, b, a) == old(
                    self,
                ).turn_of(i, e, b, a),
    {
        let id = AiBehavior(self.systems.len());
        let behaviour = MonsterAi::<M>::new();
        let ghost own = behaviour;
        let system: Box<dyn AiSystem> = Box::new(behaviour);
        assert forall|e: EntityId, b: Seq<EntityView>, a: Seq<EntityView>| #[trigger]
            system.turn(e, b, a) == M::turn(e, b, a) by {
            assert(system.turn(e, b, a) == own.turn(e, b, a));
            assert(own.turn(e, b, a) == M::turn(e, b, a));
        }
        let entry = Registered::new(system);
        self.systems.push(entry);
        id
    }

    /// Runs the behaviour `id` for `entity`. A number that nothing is
    /// registered under runs nothing and changes nothing.
    pub fn run_system_with_input(&self, id: AiBehavior, entity: EntityId, world: &mut World) -> (ran:
        bool)
        requires
            old(world).wf(),
        ensures
            final(world).wf(),
            final(world)@.len() >= old(world)@.len(),
            ran == (id.0 < self.spec_len()),
            ran ==> self.turn_of(id, entity, old(world)@, final(world)@),
            !ran ==> final(world)@ == old(world)@,
            self.step((entity, id), old(world)@, final(world)@),
    {
        if id.0 < self.systems.len() {
            self.systems[id.0].system.run(entity, world);
            true
        } else {
            false
        }
    }
}

/// A species of monster: how one of its kind is made, and what it does
/// when its turn comes. Every species is a `Monster` and can be spawned.
pub trait Species where Self: 'static + Sized {
    /// Whether one turn of a monster of this species, standing behind
    /// `entity`, may turn the world `before` into the world `after`. A
    /// species that says nothing of itself may do anything.
    open spec fn turn(entity: EntityId, before: Seq<EntityView>, after: Seq<EntityView>) -> bool {
        true
    }

    /// One turn of the monster `entity`. It may read and change any part of
    /// the world, but must leave the store sound and may not remove
    /// entities.
    fn run_ai(entity: EntityId, world: &mut World)
        requires
            old(world).wf(),
        ensures
            final(world).wf(),
            final(world)@.len() >= old(world)@.len(),
            Self::turn(entity, old(world)@, final(world)@),
    ;

    /// Whether making one monster of this species may turn the world
    /// `before` into the world `after`, with `e` standing for the monster.
    /// A species that says nothing of itself may build anything.
    open spec fn made(before: Seq<EntityView>, after: Seq<EntityView>, e: EntityId) -> bool {
        true
    }

    /// Makes the entities of one monster and returns the one that stands
    /// for it.
    fn create_actor(world: &mut World) -> (e: EntityId)
        requires
            old(world).wf(),
        ensures
            final(world).wf(),
            final(world)@.len() >= old(world)@.len(),
            live(final(world)@, e),
            Self::made(old(world)@, final(world)@, e),
    ;

}

/// What can be spawned with a behaviour of its own: every species.
pub trait Monster: Species {
    /// Makes one monster of this species and has its behaviour run for it.
    ///
    /// The behaviour of the species is registered, once, under the next
    /// free number. Then `create_actor` makes the monster, and the entity
    /// that it returns is marked with that number and returned. The world
    /// is as `create_actor` left it, but for the mark.
    fn spawn(world: &mut World, registry: &mut AiRegistry) -> (e: EntityId)
        requires
            old(world).wf(),
        ensures
            final(world).wf(),
            final(world)@.len() >= old(world)@.len(),
            live(final(world)@, e),
            final(registry).spec_len() == old(registry).spec_len() + 1,
            ai_in(final(world)@, e) == Some(AiBehavior(old(registry).spec_len() as usize)),
            exists|mid: Seq<EntityView>| #[trigger]
                Self::made(old(world)@, mid, e) && live(mid, e) && final(world)@ == mid.update(
                    e.0 as int,
                    EntityView {
                        ai: Some(AiBehavior(old(registry).spec_len() as usize)),
                        ..entity(mid, e)
                    },
                ),
            forall|x: EntityId, b: Seq<EntityView>, a: Seq<EntityView>| #[trigger]
                final(registry).turn_of(AiBehavior(old(registry).spec_len() as usize), x, b, a)
                    == Self::turn(x, b, a),
            forall|i: AiBehavior, x: EntityId, b: Seq<EntityView>, a: Seq<EntityView>|
                i.0 < old(registry).spec_len() ==> #[trigger] final(registry).turn_of(i, x, b, a)
                    == old(registry).turn_of(i, x, b, a),
    {
        let ai = registry.register_species::<Self>();
        let spawned = Self::create_actor(world);
        let ghost mid = world@;
        let _ = world.attach(spawned, Component::AiBehavior(ai));
        assert(Self::made(old(world)@, mid, spawned) && live(mid, spawned) && world@ == mid.update(
            spawned.0 as int,
            EntityView { ai: Some(ai), ..entity(mid, spawned) },
        ));
        spawned
    }
}

impl<S: Species> Monster for S {

}

/// The behaviour of the species `M`, in the form that a registry holds.
pub struct MonsterAi<M> {
    species: PhantomData<M>,
}

impl<M> MonsterAi<M> {
    /// The behaviour of the species `M`.
    pub fn new() -> MonsterAi<M> {
        MonsterAi { species: PhantomData }
    }
}

impl<M: Species> AiSystem for MonsterAi<M> {
    /// A run of this behaviour is one turn of the species `M`.
    open spec fn turn(
        &self,
        entity: EntityId,
        before: Seq<EntityView>,
        after: Seq<EntityView>,
    ) -> bool {
        M::turn(entity, before, after)
    }

    fn run(&self, entity: EntityId, world: &mut World) {
        M::run_ai(entity, world)
    }
}

/// The entities among the first `upto` of the world that a behaviour
/// drives, each with its behaviour, oldest first.
pub open spec fn scheduled(s: Seq<EntityView>, upto: nat) -> Seq<(EntityId, AiBehavior)>
    decreases upto,
{
    if upto == 0 {
        Seq::empty()
    } else {
        let before = scheduled(s, (upto - 1) as nat);
        let e = EntityId((upto - 1) as usize);
        match ai_in(s, e) {
            Some(b) => before.push((e, b)),
            None => before,
        }
    }
}

/// Lists the entities that a behaviour drives, each with its behaviour,
/// oldest first.
pub fn ai_schedule(world: &World) -> (r: Vec<(EntityId, AiBehavior)>)
    ensures
        r@ == scheduled(world@, world@.len()),
{
    let mut r: Vec<(EntityId, AiBehavior)> = Vec::new();
    let n = world.len();
    let mut i: usize = 0;
    while i < n
        invariant
            i <= n,
            n == world@.len(),
            r@ == scheduled(world@, i as nat),
        decreases n - i,
    {
        let e = EntityId(i);
        match world.get_ai_behavior(e) {
            Some(b) => {
                r.push((e, b));
            },
            None => {},
        }
        i = i + 1;
    }
    r
}

/// How many entries of `schedule` name one of the first `registered`
/// behaviours.
pub open spec fn runnable(schedule: Seq<(EntityId, AiBehavior)>, registered: nat) -> nat
    decreases schedule.len(),
{
    if schedule.len() == 0 {
        0
    } else {
        let before = runnable(schedule.drop_last(), registered);
        if schedule.last().1.0 < registered {
            before + 1
        } else {
            before
        }
    }
}

/// No more entries can be run than there are.
pub proof fn lemma_runnable_bound(schedule: Seq<(EntityId, AiBehavior)>, registered: nat)
    ensures
        runnable(schedule, registered) <= schedule.len(),
        registered == 0 ==> runnable(schedule, registered) == 0,
    decreases schedule.len(),
{
    if schedule.len() > 0 {
        lemma_runnable_bound(schedule.drop_last(), registered);
    }
}

/// Runs one round of behaviour: every entity that a behaviour drives at the
/// start of the round has that behaviour run for it once, oldest first. An
/// entity marked with a number that nothing is registered under is passed
/// over. Returns how many behaviours ran.
pub fn run_ai_round(world: &mut World, registry: &AiRegistry) -> (ran: usize)
    requires
        old(world).wf(),
    ensures
        final(world).wf(),
        final(world)@.len() >= old(world)@.len(),
        ran == runnable(scheduled(old(world)@, old(world)@.len()), registry.spec_len()),
        ran == 0 ==> final(world)@ == old(world)@,
        registry.round(scheduled(old(world)@, old(world)@.len()), old(world)@, final(world)@),
{
    let schedule = ai_schedule(world);
    let mut ran: usize = 0;
    let mut i: usize = 0;
    assert(schedule@.take(0) =~= Seq::empty());
    while i < schedule.len()
        invariant
            i <= schedule@.len(),
            ran <= i,
            ran == runnable(schedule@.take(i as int), registry.spec_len()),
            world.wf(),
            world@.len() >= old(world)@.len(),
            ran == 0 ==> world@ == old(world)@,
            registry.round(schedule@.take(i as int), old(world)@, world@),
        decreases schedule@.len() - i,
    {
        let (entity, behavior) = schedule[i];
        let ghost mid = world@;
        proof {
            let upto = schedule@.take(i + 1);
            assert(upto.drop_last() =~= schedule@.take(i as int));
            assert(upto.last() == schedule@[i as int]);
        }
        if registry.run_system_with_input(behavior, entity, world) {
            ran = ran + 1;
        }
        proof {
            let upto = schedule@.take(i + 1);
            assert(registry.round(upto.drop_last(), old(world)@, mid) && registry.step(
                upto.last(),
                mid,
                world@,
            ));
            registry.lemma_round_extends(upto, old(world)@, mid, world@);
        }
        i = i + 1;
    }
    assert(schedule@.take(schedule@.len() as int) =~= schedule@);
    ran
}

/// Advances the behaviour timer by the time since the last tick and, if it
/// finished on this tick, runs one round of behaviour, however many periods
/// the tick brought.
pub fn tick_ai_timer(aitimer: &mut AiTimer, delta: u64, world: &mut World, registry: &AiRegistry)
    requires
        old(aitimer).0.wf(),
        old(world).wf(),
    ensures
        final(aitimer).0.wf(),
        final(aitimer).0.period() == old(aitimer).0.period(),
        final(aitimer).0.times_finished_this_tick() == fires(
            old(aitimer).0.accumulated() as int,
            delta as int,
            old(aitimer).0.period() as int,
        ),
        final(aitimer).0.accumulated() == carry(
            old(aitimer).0.accumulated() as int,
            delta as int,
            old(aitimer).0.period() as int,
        ),
        final(world).wf(),
        final(world)@.len() >= old(world)@.len(),
        final(aitimer).0.times_finished_this_tick() == 0 || scheduled(
            old(world)@,
            old(world)@.len(),
        ).len() == 0 || registry.spec_len() == 0 ==> final(world)@ == old(world)@,
        registry.rounds(
            rounds_due(final(aitimer).0.times_finished_this_tick()),
            old(world)@,
            final(world)@,
        ),
{
    aitimer.0.tick(delta);
    if aitimer.0.finished() {
        let ghost before = world@;
        proof {
            lemma_runnable_bound(scheduled(world@, world@.len()), registry.spec_len());
        }
        let _ = run_ai_round(world, registry);
        proof {
            registry.lemma_rounds_extend(0, before, before, world@);
        }
    }
}

} // verus!
