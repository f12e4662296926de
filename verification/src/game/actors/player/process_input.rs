//! From what a player typed to an event between entities of the world.

use vstd::prelude::*;
use vstd::string::*;
use crate::game::actors::player::parse_input::{
    parse_player_input,
    parse_spec,
    PlayerAction,
    PlayerActionEventType,
};
use crate::game::actors::player::{
    Player,
    PlayerAttackEvent,
    PlayerDevourEvent,
    PlayerMoveRoomEvent,
    PlayerStruggleEvent,
};
use crate::game::world::{EntityId, EntityView, World};

verus! {

/// A validated request: the entities are named by identifier.
#[derive(Clone, Copy, Debug, PartialEq, Eq, Structural)]
pub enum ParsedPlayerEvent {
    Attack(PlayerAttackEvent),
    Devour(PlayerDevourEvent),
    Move(PlayerMoveRoomEvent),
    Struggle(PlayerStruggleEvent),
}

/// The kind of entity that a name is expected to stand for.
#[derive(Clone, Copy, Debug, PartialEq, Eq, Structural)]
pub enum Kind {
    Actor,
    Organ,
    Room,
}

/// Whether the entity `v` carries the name `name` and is of kind `kind`.
pub open spec fn answers_to(v: EntityView, name: Seq<char>, kind: Kind) -> bool {
    &&& v.name == Some(name)
    &&& match kind {
        Kind::Actor => v.actor is Some,
        Kind::Organ => v.organ is Some,
        Kind::Room => v.room is Some,
    }
}

/// The first entity at or after index `from` that answers to `name` as a
/// `kind`. Names need not be unique: the oldest entity wins.
pub open spec fn first_named(s: Seq<EntityView>, name: Seq<char>, kind: Kind, from: int) -> Option<
    EntityId,
>
    decreases s.len() - from,
{
    if from < 0 || from >= s.len() {
        None
    } else if answers_to(s[from], name, kind) {
        Some(EntityId(from as usize))
    } else {
        first_named(s, name, kind, from + 1)
    }
}

/// The first entity at or after index `from` that the player with the
/// number `id` steers.
pub open spec fn first_steered(s: Seq<EntityView>, id: u64, from: int) -> Option<EntityId>
    decreases s.len() - from,
{
    if from < 0 || from >= s.len() {
        None
    } else if s[from].player == Some(Player(id)) {
        Some(EntityId(from as usize))
    } else {
        first_steered(s, id, from + 1)
    }
}

/// What `action`, asked for through `player`, becomes in the world `s`:
/// an event that carries the entities the names stand for, or a line that
/// says which name stands for nothing.
pub open spec fn resolved(s: Seq<EntityView>, player: EntityId, action: PlayerAction) -> Result<
    ParsedPlayerEvent,
    Seq<char>,
> {
    match action {
        PlayerAction::Attack { target } => match first_named(s, target, Kind::Actor, 0) {
            Some(t) => Ok(ParsedPlayerEvent::Attack(PlayerAttackEvent { player, target: t })),
            None => Err("Unknown target: "@ + target),
        },
        PlayerAction::Devour { target, organ } => match first_named(s, target, Kind::Actor, 0) {
            Some(prey) => match first_named(s, organ, Kind::Organ, 0) {
                Some(o) => Ok(
                    ParsedPlayerEvent::Devour(PlayerDevourEvent { player, prey, organ: o }),
                ),
                None => Err("Unknown organ: "@ + organ),
            },
            None => Err("Unknown target: "@ + target),
        },
        PlayerAction::MoveRoom { room } => match first_named(s, room, Kind::Room, 0) {
            Some(r) => Ok(ParsedPlayerEvent::Move(PlayerMoveRoomEvent { player, room: r })),
            None => Err("Unknown room: "@ + room),
        },
        PlayerAction::Struggle => Ok(ParsedPlayerEvent::Struggle(PlayerStruggleEvent { player })),
    }
}

/// What the line `text` from the player with the number `id` becomes in the
/// world `s`. The line is parsed first, then the player's entity is looked
/// up, then the names are resolved; the first of these that fails gives the
/// error.
pub open spec fn mapped(s: Seq<EntityView>, id: u64, text: Seq<char>) -> Result<
    ParsedPlayerEvent,
    Seq<char>,
> {
    match parse_spec(text) {
        Err(reason) => Err(reason),
        Ok(action) => match first_steered(s, id, 0) {
            Some(player) => resolved(s, player, action),
            None => Err("Unknown player"@),
        },
    }
}

/// Whether `r` is the outcome that `expected` describes.
pub open spec fn mapped_as(
    r: Result<ParsedPlayerEvent, String>,
    expected: Result<ParsedPlayerEvent, Seq<char>>,
) -> bool {
    match (r, expected) {
        (Ok(event), Ok(want)) => event == want,
        (Err(line), Err(want)) => line@ == want,
        _ => false,
    }
}

/// Whether the entity `e` is of kind `kind`.
fn is_kind(world: &World, e: EntityId, kind: Kind) -> (b: bool)
    requires
        e.0 < world@.len(),
    ensures
        b == match kind {
            Kind::Actor => world@[e.0 as int].actor is Some,
            Kind::Organ => world@[e.0 as int].organ is Some,
            Kind::Room => world@[e.0 as int].room is Some,
        },
{
    match kind {
        Kind::Actor => world.get_actor(e).is_some(),
        Kind::Organ => world.get_organ(e).is_some(),
        Kind::Room => world.get_room(e).is_some(),
    }
}

/// Finds the first entity that answers to `name` as a `kind`.
pub fn find_named(world: &World, name: &String, kind: Kind) -> (r: Option<EntityId>)
    ensures
        r == first_named(world@, name@, kind, 0),
{
    let n = world.len();
    let mut i: usize = 0;
    while i < n
        invariant
            i <= n,
            n == world@.len(),
            first_named(world@, name@, kind, 0) == first_named(world@, name@, kind, i as int),
        decreases n - i,
    {
        let e = EntityId(i);
        if is_kind(world, e, kind) {
            match world.get_name(e) {
                Some(found) => {
                    if *found == *name {
                        return Some(e);
                    }
                },
                None => {},
            }
        }
        i = i + 1;
    }
    None
}

/// Finds the first entity that the player with the number `id` steers.
pub fn find_player(world: &World, id: u64) -> (r: Option<EntityId>)
    ensures
        r == first_steered(world@, id, 0),
{
    let n = world.len();
    let mut i: usize = 0;
    while i < n
        invariant
            i <= n,
            n == world@.len(),
            first_steered(world@, id, 0) == first_steered(world@, id, i as int),
        decreases n - i,
    {
        let e = EntityId(i);
        match world.get_player(e) {
            Some(p) => {
                if p.0 == id {
                    return Some(e);
                }
            },
            None => {},
        }
        i = i + 1;
    }
    None
}

/// The line that says that `name` stands for nothing, after `prefix`.
fn unknown(prefix: &str, name: &String) -> (line: String)
    ensures
        line@ == prefix@ + name@,
{
    let mut line = String::from_str(prefix);
    line.append(name.as_str());
    line
}

/// Resolves the names in `action` to entities of `world`.
///
/// Each name is matched exactly against the names of the entities of the
/// kind that the action asks for; of several with the same name the oldest
/// is taken. A name that matches nothing gives an error line that repeats
/// the name.
pub fn resolve(world: &World, player: EntityId, action: &PlayerActionEventType) -> (r: Result<
    ParsedPlayerEvent,
    String,
>)
    ensures
        mapped_as(r, resolved(world@, player, action@)),
{
    match action {
        PlayerActionEventType::Attack { target } => match find_named(world, target, Kind::Actor) {
            Some(t) => Ok(ParsedPlayerEvent::Attack(PlayerAttackEvent { player, target: t })),
            None => Err(unknown("Unknown target: ", target)),
        },
        PlayerActionEventType::Devour { target, organ } => match find_named(
            world,
            target,
            Kind::Actor,
        ) {
            Some(prey) => match find_named(world, organ, Kind::Organ) {
                Some(o) => Ok(
                    ParsedPlayerEvent::Devour(PlayerDevourEvent { player, prey, organ: o }),
                ),
                None => Err(unknown("Unknown organ: ", organ)),
            },
            None => Err(unknown("Unknown target: ", target)),
        },
        PlayerActionEventType::MoveRoom { room } => match find_named(world, room, Kind::Room) {
            Some(r) => Ok(ParsedPlayerEvent::Move(PlayerMoveRoomEvent { player, room: r })),
            None => Err(unknown("Unknown room: ", room)),
        },
        PlayerActionEventType::Struggle => Ok(
            ParsedPlayerEvent::Struggle(PlayerStruggleEvent { player }),
        ),
    }
}

/// Turns a line of text from the player with the number `id` into an event,
/// or into the line that tells the player why not.
pub fn map_input_to_event(id: u64, text: &String, world: &World) -> (r: Result<
    ParsedPlayerEvent,
    String,
>)
    ensures
        mapped_as(r, mapped(world@, id, text@)),
{
    match parse_player_input(text) {
        Err(reason) => Err(String::from_str(reason)),
        Ok(action) => match find_player(world, id) {
            Some(player) => resolve(world, player, &action),
            None => Err(String::from_str("Unknown player")),
        },
    }
}

} // verus!
