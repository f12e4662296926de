//! Players: their input, and the events that it becomes.

pub mod parse_input;
pub mod process_input;

use vstd::prelude::*;
use vstd::string::*;
use crate::game::actors::player::process_input::{map_input_to_event, mapped, ParsedPlayerEvent};
use crate::game::actors::Actor;
use crate::game::text::{append_decimal, decimal};
use crate::game::world::{
    actor_in,
    entity,
    ancestor,
    holds,
    is_parent,
    lemma_reparented_linked,
    linked,
    live,
    organ_in,
    parent_in,
    reparented,
    within,
    EntityId,
    EntityView,
    World,
};
use crate::game::{
    broadcast,
    display_name,
    display_name_of,
    lemma_messages_push,
    messages,
    narrate,
    reject,
    rejection,
    Message,
    Outcome,
    SendMessageToBotEvent,
};

verus! {

/// Ties an entity to the player who steers it, by the player's number.
#[derive(Clone, Copy, Debug, PartialEq, Eq, Structural)]
pub struct Player(pub u64);

/// A line of text from the player with the given number.
#[derive(Debug)]
pub struct PlayerInputStringEvent(pub u64, pub String);

impl View for PlayerInputStringEvent {
    type V = (u64, Seq<char>);

    open spec fn view(&self) -> (u64, Seq<char>) {
        (self.0, self.1@)
    }
}

/// `player` attacks `target`.
#[derive(Clone, Copy, Debug, PartialEq, Eq, Structural)]
pub struct PlayerAttackEvent {
    pub player: EntityId,
    pub target: EntityId,
}

/// `player` puts `prey` into `organ`.
#[derive(Clone, Copy, Debug, PartialEq, Eq, Structural)]
pub struct PlayerDevourEvent {
    pub player: EntityId,
    pub prey: EntityId,
    pub organ: EntityId,
}

/// `player` heads for `room`.
#[derive(Clone, Copy, Debug, PartialEq, Eq, Structural)]
pub struct PlayerMoveRoomEvent {
    pub player: EntityId,
    pub room: EntityId,
}

/// `player` struggles against what holds it.
#[derive(Clone, Copy, Debug, PartialEq, Eq, Structural)]
pub struct PlayerStruggleEvent {
    pub player: EntityId,
}

/// The lines of input in `v`, each with the number of its player.
pub open spec fn inputs(v: Seq<PlayerInputStringEvent>) -> Seq<(u64, Seq<char>)> {
    v.map_values(|e: PlayerInputStringEvent| e@)
}

/// The queues that validated events wait in, one for each kind, and the
/// lines for those whose input gave no event.
pub struct Routed {
    pub attack: Seq<PlayerAttackEvent>,
    pub devour: Seq<PlayerDevourEvent>,
    pub move_room: Seq<PlayerMoveRoomEvent>,
    pub struggle: Seq<PlayerStruggleEvent>,
    pub errors: Seq<Message>,
}

/// The queues after one more line of input: its event joins the end of the
/// queue of its kind, or the reason why it gave none goes back to the
/// player who sent it.
pub open spec fn routed_one(q: Routed, s: Seq<EntityView>, input: (u64, Seq<char>)) -> Routed {
    match mapped(s, input.0, input.1) {
        Ok(ParsedPlayerEvent::Attack(e)) => Routed { attack: q.attack.push(e), ..q },
        Ok(ParsedPlayerEvent::Devour(e)) => Routed { devour: q.devour.push(e), ..q },
        Ok(ParsedPlayerEvent::Move(e)) => Routed { move_room: q.move_room.push(e), ..q },
        Ok(ParsedPlayerEvent::Struggle(e)) => Routed { struggle: q.struggle.push(e), ..q },
        Err(reason) => Routed {
            errors: q.errors.push(Message { to: Some(input.0), message: reason }),
            ..q
        },
    }
}

/// The queues after the lines of `all`, taken in the order of their arrival.
pub open spec fn routed_all(q: Routed, s: Seq<EntityView>, all: Seq<(u64, Seq<char>)>) -> Routed
    decreases all.len(),
{
    if all.len() == 0 {
        q
    } else {
        routed_one(routed_all(q, s, all.drop_last()), s, all.last())
    }
}

/// Validates the pending lines of input and hands each to the queue of
/// the one resolver for its kind. No line is dropped: one that gives no
/// event gives exactly one line back to its sender.
pub fn process_event(
    world: &World,
    reader: &Vec<PlayerInputStringEvent>,
    w_attack: &mut Vec<PlayerAttackEvent>,
    w_devour: &mut Vec<PlayerDevourEvent>,
    w_move: &mut Vec<PlayerMoveRoomEvent>,
    w_struggle: &mut Vec<PlayerStruggleEvent>,
    w_err: &mut Vec<SendMessageToBotEvent>,
)
    ensures
        (Routed {
            attack: final(w_attack)@,
            devour: final(w_devour)@,
            move_room: final(w_move)@,
            struggle: final(w_struggle)@,
            errors: messages(final(w_err)@),
        }) == routed_all(
            Routed {
                attack: old(w_attack)@,
                devour: old(w_devour)@,
                move_room: old(w_move)@,
                struggle: old(w_struggle)@,
                errors: messages(old(w_err)@),
            },
            world@,
            inputs(reader@),
        ),
{
    let ghost start = Routed {
        attack: w_attack@,
        devour: w_devour@,
        move_room: w_move@,
        struggle: w_struggle@,
        errors: messages(w_err@),
    };
    let ghost all = inputs(reader@);
    let mut i: usize = 0;
    assert(all.take(0) =~= Seq::empty());
    while i < reader.len()
        invariant
            i <= reader@.len(),
            all == inputs(reader@),
            (Routed {
                attack: w_attack@,
                devour: w_devour@,
                move_room: w_move@,
                struggle: w_struggle@,
                errors: messages(w_err@),
            }) == routed_all(start, world@, all.take(i as int)),
        decreases reader@.len() - i,
    {
        let ev = &reader[i];
        proof {
            let upto = all.take(i + 1);
            assert(upto.drop_last() =~= all.take(i as int));
            assert(upto.last() == ev@);
        }
        match map_input_to_event(ev.0, &ev.1, world) {
            Ok(ParsedPlayerEvent::Attack(e)) => {
                w_attack.push(e);
            },
            Ok(ParsedPlayerEvent::Devour(e)) => {
                w_devour.push(e);
            },
            Ok(ParsedPlayerEvent::Move(e)) => {
                w_move.push(e);
            },
            Ok(ParsedPlayerEvent::Struggle(e)) => {
                w_struggle.push(e);
            },
            Err(e) => {
                let line = SendMessageToBotEvent { to: Some(ev.0), message: e };
                proof {
                    lemma_messages_push(w_err@, line);
                }
                w_err.push(line);
            },
        }
        i = i + 1;
    }
    assert(all.take(reader@.len() as int) =~= all);
}

/// The line that tells of an attack.
pub open spec fn attack_text(attacker: Seq<char>, target: Seq<char>, damage: i32) -> Seq<char> {
    attacker + " attacks "@ + target + ", dealing "@ + decimal(damage as int) + " damage!"@
}

/// An attack can be resolved while two different entities stand behind it
/// and both carry an actor component.
pub open spec fn attack_resolves(s: Seq<EntityView>, ev: PlayerAttackEvent) -> bool {
    &&& ev.player != ev.target
    &&& actor_in(s, ev.player) is Some
    &&& actor_in(s, ev.target) is Some
}

/// What one attack does: the target's health goes down by the attacker's
/// attack, whatever the target's defense, and everybody hears of it. An
/// attack that cannot be resolved changes nothing and tells its sender so.
pub open spec fn attack_one(o: Outcome, ev: PlayerAttackEvent) -> Outcome {
    let s = o.world;
    if attack_resolves(s, ev) {
        let attacker = actor_in(s, ev.player)->0;
        let target = actor_in(s, ev.target)->0;
        Outcome {
            world: s.update(
                ev.target.0 as int,
                EntityView { actor: Some(target.damaged(attacker.attack)), ..entity(s, ev.target) },
            ),
            messages: o.messages.push(
                broadcast(
                    attack_text(
                        display_name(s, ev.player),
                        display_name(s, ev.target),
                        attacker.attack,
                    ),
                ),
            ),
        }
    } else {
        Outcome { world: s, messages: o.messages.push(rejection(s, ev.player)) }
    }
}

/// What the attacks of `evs` do, one after the other.
pub open spec fn attack_all(o: Outcome, evs: Seq<PlayerAttackEvent>) -> Outcome
    decreases evs.len(),
{
    if evs.len() == 0 {
        o
    } else {
        attack_one(attack_all(o, evs.drop_last()), evs.last())
    }
}

/// An attack that resolves takes exactly the attacker's attack from the
/// target's health, as long as the result is in the range of `i32`, and
/// leaves the rest of the target as it was. The target's defense does not
/// enter into it.
pub proof fn lemma_attack_exact(o: Outcome, ev: PlayerAttackEvent)
    requires
        attack_resolves(o.world, ev),
        actor_in(o.world, ev.target)->0.health_current - actor_in(o.world, ev.player)->0.attack
            >= i32::MIN,
        actor_in(o.world, ev.target)->0.health_current - actor_in(o.world, ev.player)->0.attack
            <= i32::MAX,
    ensures
        actor_in(attack_one(o, ev).world, ev.target) == Some(
            Actor {
                health_current: (actor_in(o.world, ev.target)->0.health_current - actor_in(
                    o.world,
                    ev.player,
                )->0.attack) as i32,
                ..actor_in(o.world, ev.target)->0
            },
        ),
        actor_in(attack_one(o, ev).world, ev.player) == actor_in(o.world, ev.player),
{
}

/// Builds the line that tells of an attack.
fn attack_line(world: &World, ev: &PlayerAttackEvent, damage: i32) -> (line: String)
    ensures
        line@ == attack_text(
            display_name(world@, ev.player),
            display_name(world@, ev.target),
            damage,
        ),
{
    let mut line = display_name_of(world, ev.player);
    let target = display_name_of(world, ev.target);
    line.append(" attacks ");
    line.append(target.as_str());
    line.append(", dealing ");
    append_decimal(&mut line, damage);
    line.append(" damage!");
    line
}

/// Resolves the pending attacks in the order of their arrival.
pub fn player_attack(
    reader: &Vec<PlayerAttackEvent>,
    world: &mut World,
    out: &mut Vec<SendMessageToBotEvent>,
)
    requires
        old(world).wf(),
    ensures
        final(world).wf(),
        (Outcome { world: final(world)@, messages: messages(final(out)@) }) == attack_all(
            Outcome { world: old(world)@, messages: messages(old(out)@) },
            reader@,
        ),
{
    let ghost start = Outcome { world: world@, messages: messages(out@) };
    let mut i: usize = 0;
    assert(reader@.take(0) =~= Seq::empty());
    while i < reader.len()
        invariant
            i <= reader@.len(),
            world.wf(),
            (Outcome { world: world@, messages: messages(out@) }) == attack_all(
                start,
                reader@.take(i as int),
            ),
        decreases reader@.len() - i,
    {
        let ev = reader[i];
        proof {
            let upto = reader@.take(i + 1);
            assert(upto.drop_last() =~= reader@.take(i as int));
            assert(upto.last() == ev);
        }
        let ghost s = world@;
        let attacker = world.get_actor(ev.player);
        let line = match attacker {
            Some(a) if ev.player.0 != ev.target.0 => {
                let text = attack_line(world, &ev, a.attack);
                match world.get_actor_mut(ev.target) {
                    Some(target) => {
                        target.take_damage(a.attack);
                        narrate(text)
                    },
                    None => reject(world, ev.player),
                }
            },
            _ => reject(world, ev.player),
        };
        proof {
            lemma_messages_push(out@, line);
        }
        out.push(line);
        i = i + 1;
    }
    assert(reader@.take(reader@.len() as int) =~= reader@);
}

/// The line that tells of a devouring.
pub open spec fn devour_text(predator: Seq<char>, prey: Seq<char>, organ: Seq<char>) -> Seq<char> {
    predator + " devours "@ + prey + " with their "@ + organ + "!"@
}

/// A devouring can be resolved while the organ still carries its organ
/// component, the prey is an entity of the world, and the organ is neither
/// the prey nor inside it.
pub open spec fn devour_resolves(s: Seq<EntityView>, ev: PlayerDevourEvent) -> bool {
    &&& organ_in(s, ev.organ) is Some
    &&& live(s, ev.prey)
    &&& !within(s, ev.organ, ev.prey)
}

/// What one devouring does: the prey moves into the organ, and everybody
/// hears of it. One that cannot be resolved changes nothing and tells its
/// sender so.
pub open spec fn devour_one(o: Outcome, ev: PlayerDevourEvent) -> Outcome {
    let s = o.world;
    if devour_resolves(s, ev) {
        Outcome {
            world: reparented(s, ev.prey, ev.organ),
            messages: o.messages.push(
                broadcast(
                    devour_text(
                        display_name(s, ev.player),
                        display_name(s, ev.prey),
                        display_name(s, ev.organ),
                    ),
                ),
            ),
        }
    } else {
        Outcome { world: s, messages: o.messages.push(rejection(s, ev.player)) }
    }
}

/// What the devourings of `evs` do, one after the other.
pub open spec fn devour_all(o: Outcome, evs: Seq<PlayerDevourEvent>) -> Outcome
    decreases evs.len(),
{
    if evs.len() == 0 {
        o
    } else {
        devour_one(devour_all(o, evs.drop_last()), evs.last())
    }
}

/// After a devouring that resolves, the prey is in the organ and nowhere
/// else: the organ is the one entity that lists it, and the one it names.
pub proof fn lemma_devour_moves_prey(o: Outcome, ev: PlayerDevourEvent)
    requires
        linked(o.world),
        devour_resolves(o.world, ev),
    ensures
        linked(devour_one(o, ev).world),
        parent_in(devour_one(o, ev).world, ev.prey) == Some(ev.organ),
        forall|p: EntityId| holds(devour_one(o, ev).world, p, ev.prey) <==> p == ev.organ,
{
    let s = o.world;
    let t = devour_one(o, ev).world;
    assert(ancestor(s, ev.organ, 0) == Some(ev.organ));
    lemma_reparented_linked(s, ev.prey, ev.organ);
    assert(is_parent(t, ev.prey, ev.organ));
    assert forall|p: EntityId| holds(t, p, ev.prey) <==> p == ev.organ by {
        assert(holds(t, p, ev.prey) <==> is_parent(t, ev.prey, p));
    }
}

/// Devourings keep the two records of containment in agreement.
pub proof fn lemma_devour_all_linked(o: Outcome, evs: Seq<PlayerDevourEvent>)
    requires
        linked(o.world),
    ensures
        linked(devour_all(o, evs).world),
    decreases evs.len(),
{
    if evs.len() > 0 {
        lemma_devour_all_linked(o, evs.drop_last());
        let before = devour_all(o, evs.drop_last());
        if devour_resolves(before.world, evs.last()) {
            lemma_devour_moves_prey(before, evs.last());
        }
    }
}

/// Of several devourings of the same prey the last one wins: whatever came
/// before, once the last has resolved the prey is in that one's organ and
/// in no other container.
pub proof fn lemma_devour_last_wins(
    o: Outcome,
    earlier: Seq<PlayerDevourEvent>,
    last: PlayerDevourEvent,
)
    requires
        linked(o.world),
        devour_resolves(devour_all(o, earlier).world, last),
    ensures
        parent_in(devour_all(o, earlier.push(last)).world, last.prey) == Some(last.organ),
        forall|p: EntityId|
            holds(devour_all(o, earlier.push(last)).world, p, last.prey) <==> p == last.organ,
{
    let evs = earlier.push(last);
    assert(evs.drop_last() =~= earlier);
    assert(evs.last() == last);
    lemma_devour_all_linked(o, earlier);
    lemma_devour_moves_prey(devour_all(o, earlier), last);
}

/// Builds the line that tells of a devouring.
fn devour_line(world: &World, ev: &PlayerDevourEvent) -> (line: String)
    ensures
        line@ == devour_text(
            display_name(world@, ev.player),
            display_name(world@, ev.prey),
            display_name(world@, ev.organ),
        ),
{
    let mut line = display_name_of(world, ev.player);
    let prey = display_name_of(world, ev.prey);
    let organ = display_name_of(world, ev.organ);
    line.append(" devours ");
    line.append(prey.as_str());
    line.append(" with their ");
    line.append(organ.as_str());
    line.append("!");
    line
}

/// Resolves the pending devourings in the order of their arrival.
pub fn player_devour(
    reader: &Vec<PlayerDevourEvent>,
    world: &mut World,
    out: &mut Vec<SendMessageToBotEvent>,
)
    requires
        old(world).wf(),
    ensures
        final(world).wf(),
        (Outcome { world: final(world)@, messages: messages(final(out)@) }) == devour_all(
            Outcome { world: old(world)@, messages: messages(old(out)@) },
            reader@,
        ),
{
    let ghost start = Outcome { world: world@, messages: messages(out@) };
    let mut i: usize = 0;
    assert(reader@.take(0) =~= Seq::empty());
    while i < reader.len()
        invariant
            i <= reader@.len(),
            world.wf(),
            (Outcome { world: world@, messages: messages(out@) }) == devour_all(
                start,
                reader@.take(i as int),
            ),
        decreases reader@.len() - i,
    {
        let ev = reader[i];
        proof {
            let upto = reader@.take(i + 1);
            assert(upto.drop_last() =~= reader@.take(i as int));
            assert(upto.last() == ev);
        }
        let line = if world.get_organ(ev.organ).is_some() {
            let text = devour_line(world, &ev);
            match world.set_parent(ev.prey, ev.organ) {
                Ok(_) => narrate(text),
                Err(_) => reject(world, ev.player),
            }
        } else {
            reject(world, ev.player)
        };
        proof {
            lemma_messages_push(out@, line);
        }
        out.push(line);
        i = i + 1;
    }
    assert(reader@.take(reader@.len() as int) =~= reader@);
}

/// `lines` followed by `text`, said to everybody `times` times.
pub open spec fn said(lines: Seq<Message>, text: Seq<char>, times: nat) -> Seq<Message>
    decreases times,
{
    if times == 0 {
        lines
    } else {
        said(lines, text, (times - 1) as nat).push(broadcast(text))
    }
}

/// Says `text` to everybody once for each of `count` events.
fn say_each(count: usize, text: &str, out: &mut Vec<SendMessageToBotEvent>)
    ensures
        messages(final(out)@) == said(messages(old(out)@), text@, count as nat),
{
    let mut i: usize = 0;
    while i < count
        invariant
            i <= count,
            messages(out@) == said(messages(old(out)@), text@, i as nat),
        decreases count - i,
    {
        let line = narrate(String::from_str(text));
        proof {
            lemma_messages_push(out@, line);
        }
        out.push(line);
        i = i + 1;
    }
}

/// Resolves the pending moves. A move is only told of: nobody changes
/// rooms.
pub fn player_move_room(reader: &Vec<PlayerMoveRoomEvent>, out: &mut Vec<SendMessageToBotEvent>)
    ensures
        messages(final(out)@) == said(messages(old(out)@), "Move event"@, reader@.len()),
{
    say_each(reader.len(), "Move event", out);
}

/// Resolves the pending struggles. A struggle is only told of: nothing
/// changes.
pub fn player_struggle(reader: &Vec<PlayerStruggleEvent>, out: &mut Vec<SendMessageToBotEvent>)
    ensures
        messages(final(out)@) == said(messages(old(out)@), "Struggle event"@, reader@.len()),
{
    say_each(reader.len(), "Struggle event", out);
}

} // verus!
