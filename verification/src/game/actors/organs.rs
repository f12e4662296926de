//! Organs: containers that hold other entities and wear them down.

use vstd::prelude::*;
use vstd::string::*;
use crate::game::actors::Actor;
use crate::game::text::{append_decimal, decimal};
use crate::game::timer::{carry, fires, rounds_due, RepeatingTimer};
use crate::game::world::{
    actor_in,
    children_in,
    entity,
    holds,
    is_parent,
    linked,
    live,
    organ_in,
    same_edges,
    EntityId,
    EntityView,
    World,
};
use crate::game::{
    broadcast,
    display_name,
    display_name_of,
    lemma_messages_push,
    messages,
    narrate,
    Outcome,
    SendMessageToBotEvent,
};

verus! {

/// The time between two rounds of digestion, in the time units of the
/// timer that counts it.
pub const DIGEST_PERIOD: u64 = 30;

/// Determines specific behavior of an organ.
#[derive(Clone, Copy, Debug, PartialEq, Eq, Structural)]
pub enum OrganType {
    Generic,
    Womb,
    Breast,
}

/// A container inside an actor.
#[derive(Clone, Copy, Debug, PartialEq, Eq, Structural)]
pub struct Organ {
    pub health_current: i32,
    pub health_max: i32,
    pub attack: i32,
    pub defense: i32,
    pub capacity: i32,
    pub fullness_current: i32,
    pub organ_type: OrganType,
}

/// What a new organ is made from.
#[derive(Clone, Copy, Debug, PartialEq, Eq, Structural)]
pub struct OrganParams {
    pub health: i32,
    pub attack: i32,
    pub defense: i32,
    pub capacity: i32,
    pub organ_type: OrganType,
}

impl Organ {
    /// An organ is sound while it holds no more than its capacity and its
    /// health does not exceed its maximum.
    pub open spec fn wf(&self) -> bool {
        self.fullness_current <= self.capacity && self.health_current <= self.health_max
    }

    /// The organ that `params` describe: empty and at full health.
    pub open spec fn from_params(params: OrganParams) -> Organ {
        Organ {
            health_current: params.health,
            health_max: params.health,
            attack: params.attack,
            defense: params.defense,
            capacity: params.capacity,
            fullness_current: 0,
            organ_type: params.organ_type,
        }
    }

    /// The parameters of the organ that `default` makes.
    pub open spec fn default_params() -> OrganParams {
        OrganParams {
            health: 1000,
            attack: 100,
            defense: 100,
            capacity: 100,
            organ_type: OrganType::Generic,
        }
    }

    /// An empty organ at full health.
    pub fn new(params: OrganParams) -> (organ: Organ)
        ensures
            organ == Organ::from_params(params),
            params.capacity >= 0 ==> organ.wf(),
    {
        Organ {
            health_current: params.health,
            health_max: params.health,
            attack: params.attack,
            defense: params.defense,
            capacity: params.capacity,
            fullness_current: 0,
            organ_type: params.organ_type,
        }
    }

    /// A generic organ with 1000 health, 100 attack, 100 defense and room
    /// for 100.
    pub fn default() -> (organ: Organ)
        ensures
            organ == Organ::from_params(Organ::default_params()),
            organ.wf(),
    {
        Organ::new(
            OrganParams {
                health: 1000,
                attack: 100,
                defense: 100,
                capacity: 100,
                organ_type: OrganType::Generic,
            },
        )
    }
}

/// The timer that paces digestion.
#[derive(Clone, Copy, Debug)]
pub struct OrganTimer(pub RepeatingTimer);

impl OrganTimer {
    /// A timer that fires every `period` time units.
    pub fn new(period: u64) -> (t: OrganTimer)
        requires
            period > 0,
        ensures
            t.0.wf(),
            t.0.period() == period,
            t.0.accumulated() == 0,
            t.0.times_finished_this_tick() == 0,
    {
        OrganTimer(RepeatingTimer::new(period))
    }
}

/// Advances the digestion timer by the time since the last tick.
pub fn tick_timer(timer: &mut OrganTimer, delta: u64)
    requires
        old(timer).0.wf(),
    ensures
        final(timer).0.wf(),
        final(timer).0.period() == old(timer).0.period(),
        final(timer).0.times_finished_this_tick() == fires(
            old(timer).0.accumulated() as int,
            delta as int,
            old(timer).0.period() as int,
        ),
        final(timer).0.accumulated() == carry(
            old(timer).0.accumulated() as int,
            delta as int,
            old(timer).0.period() as int,
        ),
{
    timer.0.tick(delta);
}

/// The line that tells of one organ digesting one prey.
pub open spec fn digest_text(organ: Seq<char>, prey: Seq<char>, damage: i32) -> Seq<char> {
    organ + " digests "@ + prey + " for "@ + decimal(damage as int) + " damage!"@
}

/// What `organ` does to `prey` in one round: if the one carries an organ
/// component and the other an actor component, the prey's health goes down
/// by the organ's attack and everybody hears of it. Contents that are no
/// actors are passed over in silence.
pub open spec fn digest_one(o: Outcome, organ: EntityId, prey: EntityId) -> Outcome {
    let s = o.world;
    match (organ_in(s, organ), actor_in(s, prey)) {
        (Some(g), Some(a)) => Outcome {
            world: s.update(
                prey.0 as int,
                EntityView { actor: Some(a.damaged(g.attack)), ..entity(s, prey) },
            ),
            messages: o.messages.push(
                broadcast(digest_text(display_name(s, organ), display_name(s, prey), g.attack)),
            ),
        },
        _ => o,
    }
}

/// What `organ` does in one round to the first `upto` of the entities in
/// `contents`, taken in order.
pub open spec fn digest_contents(
    o: Outcome,
    organ: EntityId,
    contents: Seq<EntityId>,
    upto: nat,
) -> Outcome
    decreases upto,
{
    if upto == 0 {
        o
    } else {
        digest_one(
            digest_contents(o, organ, contents, (upto - 1) as nat),
            organ,
            contents[upto - 1],
        )
    }
}

/// What one round does inside `organ`: each entity directly inside it has
/// its turn, oldest first. An entity without an organ component digests
/// nothing.
pub open spec fn digest_organ(o: Outcome, organ: EntityId) -> Outcome {
    if organ_in(o.world, organ) is Some {
        digest_contents(
            o,
            organ,
            children_in(o.world, organ),
            children_in(o.world, organ).len(),
        )
    } else {
        o
    }
}

/// What one round does inside the first `upto` entities of the world.
pub open spec fn digest_upto(o: Outcome, upto: nat) -> Outcome
    decreases upto,
{
    if upto == 0 {
        o
    } else {
        digest_organ(digest_upto(o, (upto - 1) as nat), EntityId((upto - 1) as usize))
    }
}

/// What one round of digestion does: every organ of the world has its
/// turn, oldest first.
pub open spec fn digest_round(o: Outcome) -> Outcome {
    digest_upto(o, o.world.len())
}

/// What `rounds` rounds of digestion do, one after the other.
pub open spec fn digest_rounds(o: Outcome, rounds: nat) -> Outcome
    decreases rounds,
{
    if rounds == 0 {
        o
    } else {
        digest_round(digest_rounds(o, (rounds - 1) as nat))
    }
}

/// Builds the line that tells of one organ digesting one prey.
fn digest_line(world: &World, organ: EntityId, prey: EntityId, damage: i32) -> (line: String)
    ensures
        line@ == digest_text(display_name(world@, organ), display_name(world@, prey), damage),
{
    let mut line = display_name_of(world, organ);
    let name = display_name_of(world, prey);
    line.append(" digests ");
    line.append(name.as_str());
    line.append(" for ");
    append_decimal(&mut line, damage);
    line.append(" damage!");
    line
}

/// Digestion changes actors only: the entities and the edges between them
/// stay as they are, and so do the organs.
pub proof fn lemma_digest_one_keeps(o: Outcome, organ: EntityId, prey: EntityId)
    ensures
        same_edges(o.world, digest_one(o, organ, prey).world),
        forall|e: EntityId| organ_in(digest_one(o, organ, prey).world, e) == organ_in(o.world, e),
{
}

/// Whether `b` is `a` but for the actor components.
pub open spec fn same_but_actors(a: Seq<EntityView>, b: Seq<EntityView>) -> bool {
    &&& a.len() == b.len()
    &&& forall|i: int|
        0 <= i < a.len() ==> #[trigger] b[i] == (EntityView { actor: b[i].actor, ..a[i] })
}

/// What digestion by an organ with the attack `attack` makes of the actor
/// component `actor`, if there is one.
pub open spec fn digested(actor: Option<Actor>, attack: i32) -> Option<Actor> {
    match actor {
        Some(a) => Some(a.damaged(attack)),
        None => None,
    }
}

/// What an organ does to the first `upto` of its contents: each of them
/// that is an actor loses the organ's attack once, and nothing else
/// changes.
proof fn lemma_digest_contents(
    o: Outcome,
    organ: EntityId,
    contents: Seq<EntityId>,
    upto: nat,
    x: EntityId,
)
    requires
        upto <= contents.len(),
        contents.no_duplicates(),
        organ_in(o.world, organ) is Some,
    ensures
        same_but_actors(o.world, digest_contents(o, organ, contents, upto).world),
        actor_in(digest_contents(o, organ, contents, upto).world, x) == (if contents.take(
            upto as int,
        ).contains(x) {
            digested(actor_in(o.world, x), organ_in(o.world, organ)->0.attack)
        } else {
            actor_in(o.world, x)
        }),
    decreases upto,
{
    if upto > 0 {
        let before = (upto - 1) as nat;
        let prey = contents[upto - 1];
        let prev = digest_contents(o, organ, contents, before);
        lemma_digest_contents(o, organ, contents, before, x);
        lemma_digest_contents(o, organ, contents, before, prey);
        let sofar = contents.take(before as int);
        let now = contents.take(upto as int);
        assert(!sofar.contains(prey)) by {
            if sofar.contains(prey) {
                let k = sofar.index_of(prey);
                assert(contents[k] == prey);
            }
        }
        assert(now.contains(x) <==> (sofar.contains(x) || x == prey)) by {
            if sofar.contains(x) {
                let k = sofar.index_of(x);
                assert(now[k] == x);
            }
            if x == prey {
                assert(now[upto - 1] == x);
            }
            if now.contains(x) {
                let k = now.index_of(x);
                if k < upto - 1 {
                    assert(sofar[k] == x);
                }
            }
        }
        assert(organ_in(prev.world, organ) == organ_in(o.world, organ)) by {
            if live(o.world, organ) {
                assert(prev.world[organ.0 as int].organ == o.world[organ.0 as int].organ);
            }
        }
        let after = digest_one(prev, organ, prey);
        lemma_digest_one_keeps(prev, organ, prey);
        assert(same_but_actors(o.world, after.world)) by {
            assert forall|i: int| 0 <= i < o.world.len() implies #[trigger] after.world[i] == (
            EntityView { actor: after.world[i].actor, ..o.world[i] }) by {
                assert(prev.world[i] == (EntityView { actor: prev.world[i].actor, ..o.world[i] }));
            }
        }
    } else {
        assert(contents.take(0).len() == 0);
    }
}

/// What one round does inside the first `upto` entities of a world whose
/// records of containment agree: every actor directly inside one of the
/// organs among them loses that organ's attack once, and nothing else
/// changes.
proof fn lemma_digest_upto(o: Outcome, upto: nat, x: EntityId)
    requires
        linked(o.world),
        upto <= o.world.len() <= usize::MAX,
    ensures
        same_but_actors(o.world, digest_upto(o, upto).world),
        actor_in(digest_upto(o, upto).world, x) == (if exists|p: EntityId|
            p.0 < upto && #[trigger] is_parent(o.world, x, p) && organ_in(o.world, p) is Some {
            let p = choose|p: EntityId|
                p.0 < upto && #[trigger] is_parent(o.world, x, p) && organ_in(o.world, p) is Some;
            digested(actor_in(o.world, x), organ_in(o.world, p)->0.attack)
        } else {
            actor_in(o.world, x)
        }),
    decreases upto,
{
    if upto > 0 {
        let before = (upto - 1) as nat;
        let organ = EntityId(before as usize);
        assert(organ.0 == before);
        let prev = digest_upto(o, before);
        lemma_digest_upto(o, before, x);
        assert(organ_in(prev.world, organ) == organ_in(o.world, organ)) by {
            assert(prev.world[organ.0 as int].organ == o.world[organ.0 as int].organ);
        }
        assert(children_in(prev.world, organ) == children_in(o.world, organ)) by {
            assert(prev.world[organ.0 as int].children == o.world[organ.0 as int].children);
        }
        let after = digest_organ(prev, organ);
        let earlier = exists|p: EntityId|
            p.0 < before && #[trigger] is_parent(o.world, x, p) && organ_in(o.world, p) is Some;
        let here = is_parent(o.world, x, organ) && organ_in(o.world, organ) is Some;
        if organ_in(o.world, organ) is Some {
            let contents = children_in(o.world, organ);
            assert(contents.no_duplicates()) by {
                assert(entity(o.world, organ).children.no_duplicates());
            }
            lemma_digest_contents(prev, organ, contents, contents.len(), x);
            assert(contents.take(contents.len() as int) =~= contents);
            assert(contents.contains(x) <==> holds(o.world, organ, x));
            assert(holds(o.world, organ, x) <==> is_parent(o.world, x, organ));
            assert(same_but_actors(o.world, after.world)) by {
                assert forall|i: int| 0 <= i < o.world.len() implies #[trigger] after.world[i]
                    == (EntityView { actor: after.world[i].actor, ..o.world[i] }) by {
                    assert(prev.world[i] == (EntityView {
                        actor: prev.world[i].actor,
                        ..o.world[i]
                    }));
                }
            }
        }
        if here {
            // The one container of `x` has its turn now, so none had it before.
            assert(!earlier) by {
                if earlier {
                    let p = choose|p: EntityId|
                        p.0 < before && #[trigger] is_parent(o.world, x, p) && organ_in(
                            o.world,
                            p,
                        ) is Some;
                    assert(p == organ);
                }
            }
            assert(organ.0 < upto && is_parent(o.world, x, organ));
            let p = choose|p: EntityId|
                p.0 < upto && #[trigger] is_parent(o.world, x, p) && organ_in(o.world, p) is Some;
            assert(p == organ);
        } else {
            if earlier {
                let q = choose|p: EntityId|
                    p.0 < before && #[trigger] is_parent(o.world, x, p) && organ_in(
                        o.world,
                        p,
                    ) is Some;
                assert(q.0 < upto && is_parent(o.world, x, q));
                let p = choose|p: EntityId|
                    p.0 < upto && #[trigger] is_parent(o.world, x, p) && organ_in(
                        o.world,
                        p,
                    ) is Some;
                assert(p == q);
            } else {
                if exists|p: EntityId|
                    p.0 < upto && #[trigger] is_parent(o.world, x, p) && organ_in(o.world, p)
                        is Some {
                    let p = choose|p: EntityId|
                        p.0 < upto && #[trigger] is_parent(o.world, x, p) && organ_in(
                            o.world,
                            p,
                        ) is Some;
                    assert(p.0 < before || p == organ);
                }
            }
        }
    }
}

/// In one round of digestion, in a world whose records of containment
/// agree, an actor directly inside an organ loses that organ's attack
/// exactly once, whatever else is in the world.
pub proof fn lemma_digest_round_damages(o: Outcome, organ: EntityId, prey: EntityId)
    requires
        linked(o.world),
        o.world.len() <= usize::MAX,
        organ_in(o.world, organ) is Some,
        holds(o.world, organ, prey),
        actor_in(o.world, prey) is Some,
    ensures
        actor_in(digest_round(o).world, prey) == Some(
            actor_in(o.world, prey)->0.damaged(organ_in(o.world, organ)->0.attack),
        ),
{
    lemma_digest_upto(o, o.world.len(), prey);
    assert(is_parent(o.world, prey, organ));
    assert(organ.0 < o.world.len());
    let p = choose|p: EntityId|
        p.0 < o.world.len() && #[trigger] is_parent(o.world, prey, p) && organ_in(o.world, p)
            is Some;
    assert(p == organ);
}

/// On a tick on which the digestion timer finished, an actor directly
/// inside an organ loses that organ's attack once: its health is less by
/// exactly that much, as long as the difference is in the range of `i32`.
pub proof fn lemma_digest_one_fire(o: Outcome, organ: EntityId, prey: EntityId)
    requires
        linked(o.world),
        o.world.len() <= usize::MAX,
        organ_in(o.world, organ) is Some,
        holds(o.world, organ, prey),
        actor_in(o.world, prey) is Some,
    ensures
        actor_in(digest_rounds(o, 1).world, prey) == Some(
            actor_in(o.world, prey)->0.damaged(organ_in(o.world, organ)->0.attack),
        ),
        i32::MIN <= actor_in(o.world, prey)->0.health_current - organ_in(o.world, organ)->0.attack
            <= i32::MAX ==> actor_in(digest_rounds(o, 1).world, prey)->0.health_current
            == actor_in(o.world, prey)->0.health_current - organ_in(o.world, organ)->0.attack,
{
    reveal_with_fuel(digest_rounds, 2);
    lemma_digest_round_damages(o, organ, prey);
}

/// In one round of digestion, what is directly inside no organ keeps its
/// actor component as it is.
pub proof fn lemma_digest_round_spares(o: Outcome, x: EntityId)
    requires
        linked(o.world),
        o.world.len() <= usize::MAX,
        forall|p: EntityId| #[trigger] is_parent(o.world, x, p) ==> organ_in(o.world, p) is None,
    ensures
        actor_in(digest_round(o).world, x) == actor_in(o.world, x),
{
    lemma_digest_upto(o, o.world.len(), x);
}

/// Runs one round of digestion.
fn digest_once(world: &mut World, out: &mut Vec<SendMessageToBotEvent>)
    requires
        old(world).wf(),
    ensures
        final(world).wf(),
        (Outcome { world: final(world)@, messages: messages(final(out)@) }) == digest_round(
            Outcome { world: old(world)@, messages: messages(old(out)@) },
        ),
{
    let ghost start = Outcome { world: world@, messages: messages(out@) };
    let n = world.len();
    let mut i: usize = 0;
    while i < n
        invariant
            i <= n,
            n == start.world.len(),
            world.wf(),
            world@.len() == n,
            (Outcome { world: world@, messages: messages(out@) }) == digest_upto(start, i as nat),
        decreases n - i,
    {
        let organ_id = EntityId(i);
        let ghost before = Outcome { world: world@, messages: messages(out@) };
        match world.get_organ(organ_id) {
            Some(organ) => {
                let contents = world.children_of(organ_id);
                let mut j: usize = 0;
                while j < contents.len()
                    invariant
                        j <= contents@.len(),
                        world.wf(),
                        world@.len() == n,
                        organ_id.0 < n,
                        organ_in(world@, organ_id) == Some(organ),
                        (Outcome { world: world@, messages: messages(out@) }) == digest_contents(
                            before,
                            organ_id,
                            contents@,
                            j as nat,
                        ),
                    decreases contents@.len() - j,
                {
                    let prey = contents[j];
                    let ghost here = Outcome { world: world@, messages: messages(out@) };
                    proof {
                        lemma_digest_one_keeps(here, organ_id, prey);
                    }
                    let text = digest_line(world, organ_id, prey, organ.attack);
                    match world.get_actor_mut(prey) {
                        Some(actor) => {
                            actor.take_damage(organ.attack);
                            let line = narrate(text);
                            proof {
                                lemma_messages_push(out@, line);
                            }
                            out.push(line);
                        },
                        None => {},
                    }
                    j = j + 1;
                }
            },
            None => {},
        }
        i = i + 1;
    }
}

/// Wears down what the organs of the world contain, if the digestion timer
/// finished during the latest tick: one round then, however many periods
/// the tick brought.
///
/// In the round every entity with an organ component takes its attack from
/// the health of every actor directly inside it, and one line tells of each
/// such pair. Nobody dies of it: health only goes down.
pub fn digest(world: &mut World, timer: &OrganTimer, out: &mut Vec<SendMessageToBotEvent>)
    requires
        old(world).wf(),
    ensures
        final(world).wf(),
        (Outcome { world: final(world)@, messages: messages(final(out)@) }) == digest_rounds(
            Outcome { world: old(world)@, messages: messages(old(out)@) },
            rounds_due(timer.0.times_finished_this_tick()),
        ),
{
    proof {
        reveal_with_fuel(digest_rounds, 2);
    }
    if timer.0.finished() {
        digest_once(world, out);
    }
}

} // verus!
