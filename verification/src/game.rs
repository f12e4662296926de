//! The simulation: its world, its clocks and the systems that run each tick.

pub mod actors;
pub mod rooms;
pub mod text;
pub mod timer;
pub mod world;

use vstd::prelude::*;
use vstd::string::*;
use crate::game::actors::ai::{
    scheduled,
    tick_ai_timer,
    AiBehavior,
    AiRegistry,
    AiTimer,
    Monster,
};
use crate::game::actors::organs::{digest, digest_rounds, tick_timer, OrganTimer};
use crate::game::actors::player::{
    attack_all,
    devour_all,
    inputs,
    player_attack,
    player_devour,
    player_move_room,
    player_struggle,
    process_event,
    routed_all,
    said,
    PlayerAttackEvent,
    PlayerDevourEvent,
    PlayerInputStringEvent,
    PlayerMoveRoomEvent,
    PlayerStruggleEvent,
    Routed,
};
use crate::game::rooms::GameRoom;
use crate::game::timer::{carry, fires, rounds_due};
use crate::game::world::{
    entity,
    live,
    name_in,
    player_in,
    reparented,
    within,
    Component,
    EntityId,
    EntityView,
    World,
};

verus! {

/// The time between two ticks of the host's loop, in milliseconds.
pub const GAME_LOOP_MILIS: u64 = 100;

/// What reaches the simulation from outside.
#[derive(Debug)]
pub enum GameInputType {
    /// A line of text from the player with this number.
    PlayerInput(u64, String),
    /// The request to stop the simulation.
    Quit,
}

/// A line of text for the world outside: for one player, or for all.
#[derive(Debug)]
pub struct SendMessageToBotEvent {
    /// The number of the player this is for; `None` for everybody.
    pub to: Option<u64>,
    pub message: String,
}

/// An outgoing line as the contracts see it.
pub struct Message {
    pub to: Option<u64>,
    pub message: Seq<char>,
}

impl View for SendMessageToBotEvent {
    type V = Message;

    open spec fn view(&self) -> Message {
        Message { to: self.to, message: self.message@ }
    }
}

/// The lines of `v`, in order.
pub open spec fn messages(v: Seq<SendMessageToBotEvent>) -> Seq<Message> {
    v.map_values(|m: SendMessageToBotEvent| m@)
}

/// A world together with the lines sent so far: what a resolver takes and
/// what it leaves.
pub struct Outcome {
    pub world: Seq<EntityView>,
    pub messages: Seq<Message>,
}

/// How narration calls `e`: by its name, or `someone` if it has none.
pub open spec fn display_name(s: Seq<EntityView>, e: EntityId) -> Seq<char> {
    match name_in(s, e) {
        Some(n) => n,
        None => "someone"@,
    }
}

/// The number of the player who steers `e`, if a player does.
pub open spec fn steered_by(s: Seq<EntityView>, e: EntityId) -> Option<u64> {
    match player_in(s, e) {
        Some(p) => Some(p.0),
        None => None,
    }
}

/// The line that tells the one who acted through `e` that the event could
/// not be resolved.
pub open spec fn rejection(s: Seq<EntityView>, e: EntityId) -> Message {
    Message { to: steered_by(s, e), message: "Target is no longer valid"@ }
}

/// A line for everybody.
pub open spec fn broadcast(text: Seq<char>) -> Message {
    Message { to: None, message: text }
}

/// Adding a line at the end of the vector adds its view at the end of the
/// lines.
pub proof fn lemma_messages_push(v: Seq<SendMessageToBotEvent>, m: SendMessageToBotEvent)
    ensures
        messages(v.push(m)) == messages(v).push(m@),
{
    assert(messages(v.push(m)) =~= messages(v).push(m@));
}

/// How narration calls `e`.
pub fn display_name_of(world: &World, e: EntityId) -> (name: String)
    ensures
        name@ == display_name(world@, e),
{
    match world.get_name(e) {
        Some(n) => n.clone(),
        None => String::from_str("someone"),
    }
}

/// The line that tells the one who acted through `e` that the event could
/// not be resolved.
pub fn reject(world: &World, e: EntityId) -> (m: SendMessageToBotEvent)
    ensures
        m@ == rejection(world@, e),
{
    let to = match world.get_player(e) {
        Some(p) => Some(p.0),
        None => None,
    };
    SendMessageToBotEvent { to, message: String::from_str("Target is no longer valid") }
}

/// A line for everybody.
pub fn narrate(text: String) -> (m: SendMessageToBotEvent)
    ensures
        m@ == broadcast(text@),
{
    SendMessageToBotEvent { to: None, message: text }
}

/// The lines of player input among `inbox`, in the order of their arrival.
pub open spec fn received(inbox: Seq<GameInputType>) -> Seq<(u64, Seq<char>)>
    decreases inbox.len(),
{
    if inbox.len() == 0 {
        Seq::empty()
    } else {
        let before = received(inbox.drop_last());
        match inbox.last() {
            GameInputType::PlayerInput(id, text) => before.push((id, text@)),
            GameInputType::Quit => before,
        }
    }
}

/// Whether `inbox` holds a request to stop.
pub open spec fn quit_asked(inbox: Seq<GameInputType>) -> bool {
    exists|i: int| 0 <= i < inbox.len() && inbox[i] is Quit
}

/// Hands what came in from outside to whoever is meant to handle it: each
/// line of player input joins the queue of input events, and the result
/// says whether the simulation was asked to stop. Input that came with or
/// after such a request is still handed on.
pub fn receive_input(inbox: Vec<GameInputType>, writer: &mut Vec<PlayerInputStringEvent>) -> (quit:
    bool)
    ensures
        inputs(final(writer)@) == inputs(old(writer)@) + received(inbox@),
        quit == quit_asked(inbox@),
{
    let ghost all = inbox@;
    let mut quit = false;
    assert(all.take(0) =~= Seq::empty());
    assert(inputs(writer@) =~= inputs(old(writer)@) + received(all.take(0)));
    for msg in it: inbox.into_iter()
        invariant
            it.seq() == all,
            inputs(writer@) == inputs(old(writer)@) + received(all.take(it.index() as int)),
            quit == quit_asked(all.take(it.index() as int)),
    {
        proof {
            let done = it.index() as int;
            let upto = all.take(done + 1);
            assert(upto.drop_last() =~= all.take(done));
            assert(upto.last() == msg);
            if quit_asked(all.take(done)) {
                let w = choose|i: int| 0 <= i < done && all.take(done)[i] is Quit;
                assert(upto[w] is Quit);
            }
            if quit_asked(upto) {
                let w = choose|i: int| 0 <= i < done + 1 && upto[i] is Quit;
                if w < done {
                    assert(all.take(done)[w] is Quit);
                }
            }
        }
        match msg {
            GameInputType::PlayerInput(id, input) => {
                let event = PlayerInputStringEvent(id, input);
                assert(inputs(writer@.push(event)) =~= inputs(writer@).push(event@));
                writer.push(event);
            },
            GameInputType::Quit => {
                quit = true;
            },
        }
    }
    assert(all.take(all.len() as int) =~= all);
    quit
}

/// What one tick leaves behind for the world outside.
#[derive(Debug)]
pub struct Tick {
    /// The lines to send, in the order in which they arose.
    pub messages: Vec<SendMessageToBotEvent>,
    /// Whether the simulation was asked to stop.
    pub quit: bool,
}

/// What the input of one tick and `rounds` rounds of digestion make of
/// the world `s`, and the lines that tell of it.
///
/// The lines of input are validated against the world as the tick found it
/// and sorted into one queue for each kind of event. Then the attacks are
/// resolved, then the devourings, the moves and the struggles, each queue in
/// the order of arrival, and last comes digestion. The lines for rejected
/// input come first, then the lines of each resolver in that order.
pub open spec fn resolved_tick(s: Seq<EntityView>, inbox: Seq<GameInputType>, rounds: nat) -> Outcome {
    let routed = routed_all(
        Routed {
            attack: Seq::empty(),
            devour: Seq::empty(),
            move_room: Seq::empty(),
            struggle: Seq::empty(),
            errors: Seq::empty(),
        },
        s,
        received(inbox),
    );
    let fought = attack_all(Outcome { world: s, messages: routed.errors }, routed.attack);
    let fed = devour_all(fought, routed.devour);
    let told = said(
        said(fed.messages, "Move event"@, routed.move_room.len()),
        "Struggle event"@,
        routed.struggle.len(),
    );
    digest_rounds(Outcome { world: fed.world, messages: told }, rounds)
}

/// A simulation: the world, the behaviours registered for it, and the two
/// timers that pace digestion and behaviour.
pub struct Game {
    pub world: World,
    pub registry: AiRegistry,
    pub organ_timer: OrganTimer,
    pub ai_timer: AiTimer,
}

impl Game {
    /// The invariant of a simulation: a sound world and sound timers.
    pub open spec fn wf(&self) -> bool {
        self.world.wf() && self.organ_timer.0.wf() && self.ai_timer.0.wf()
    }

    /// A simulation with an empty world, in which digestion comes round
    /// every `digest_period` time units and behaviour every `ai_period`.
    pub fn new(digest_period: u64, ai_period: u64) -> (g: Game)
        requires
            digest_period > 0,
            ai_period > 0,
        ensures
            g.wf(),
            g.world@ == Seq::<EntityView>::empty(),
            g.registry.spec_len() == 0,
            g.organ_timer.0.period() == digest_period,
            g.organ_timer.0.accumulated() == 0,
            g.ai_timer.0.period() == ai_period,
            g.ai_timer.0.accumulated() == 0,
    {
        Game {
            world: World::new(),
            registry: AiRegistry::new(),
            organ_timer: OrganTimer::new(digest_period),
            ai_timer: AiTimer::new(ai_period),
        }
    }

    /// Runs one tick: takes in what arrived since the last one, resolves
    /// it, lets `delta` time units pass on both timers, and runs one round
    /// of digestion and one of behaviour if the timer of each finished on
    /// this tick.
    ///
    /// All of it runs to the end, in the fixed order that `resolved_tick`
    /// gives, with behaviour last: in its round each behaviour runs once
    /// for each entity that it drives. What a behaviour does on its run is
    /// its own affair; where none runs, the world is left exactly as
    /// `resolved_tick` says. The registry is left as it was.
    pub fn update(&mut self, inbox: Vec<GameInputType>, delta: u64) -> (tick: Tick)
        requires
            old(self).wf(),
        ensures
            final(self).wf(),
            tick.quit == quit_asked(inbox@),
            final(self).organ_timer.0.period() == old(self).organ_timer.0.period(),
            final(self).organ_timer.0.times_finished_this_tick() == fires(
                old(self).organ_timer.0.accumulated() as int,
                delta as int,
                old(self).organ_timer.0.period() as int,
            ),
            final(self).organ_timer.0.accumulated() == carry(
                old(self).organ_timer.0.accumulated() as int,
                delta as int,
                old(self).organ_timer.0.period() as int,
            ),
            final(self).ai_timer.0.period() == old(self).ai_timer.0.period(),
            final(self).ai_timer.0.times_finished_this_tick() == fires(
                old(self).ai_timer.0.accumulated() as int,
                delta as int,
                old(self).ai_timer.0.period() as int,
            ),
            final(self).ai_timer.0.accumulated() == carry(
                old(self).ai_timer.0.accumulated() as int,
                delta as int,
                old(self).ai_timer.0.period() as int,
            ),
            final(self).registry.spec_len() == old(self).registry.spec_len(),
            forall|i: AiBehavior, x: EntityId, b: Seq<EntityView>, a: Seq<EntityView>| #[trigger]
                final(self).registry.turn_of(i, x, b, a) == old(self).registry.turn_of(i, x, b, a),
            messages(tick.messages@) == resolved_tick(
                old(self).world@,
                inbox@,
                rounds_due(final(self).organ_timer.0.times_finished_this_tick()),
            ).messages,
            ({
                let after = resolved_tick(
                    old(self).world@,
                    inbox@,
                    rounds_due(final(self).organ_timer.0.times_finished_this_tick()),
                ).world;
                final(self).ai_timer.0.times_finished_this_tick() == 0 || scheduled(
                    after,
                    after.len(),
                ).len() == 0 || final(self).registry.spec_len() == 0 ==> final(self).world@
                    == after
            }),
            old(self).registry.rounds(
                rounds_due(final(self).ai_timer.0.times_finished_this_tick()),
                resolved_tick(
                    old(self).world@,
                    inbox@,
                    rounds_due(final(self).organ_timer.0.times_finished_this_tick()),
                ).world,
                final(self).world@,
            ),
    {
        let mut input: Vec<PlayerInputStringEvent> = Vec::new();
        let mut attacks: Vec<PlayerAttackEvent> = Vec::new();
        let mut devours: Vec<PlayerDevourEvent> = Vec::new();
        let mut moves: Vec<PlayerMoveRoomEvent> = Vec::new();
        let mut struggles: Vec<PlayerStruggleEvent> = Vec::new();
        let mut out: Vec<SendMessageToBotEvent> = Vec::new();
        assert(inputs(input@) =~= Seq::empty());
        assert(messages(out@) =~= Seq::empty());
        let quit = receive_input(inbox, &mut input);
        assert(inputs(input@) =~= received(inbox@));
        process_event(
            &self.world,
            &input,
            &mut attacks,
            &mut devours,
            &mut moves,
            &mut struggles,
            &mut out,
        );
        player_attack(&attacks, &mut self.world, &mut out);
        player_devour(&devours, &mut self.world, &mut out);
        player_move_room(&moves, &mut out);
        player_struggle(&struggles, &mut out);
        tick_timer(&mut self.organ_timer, delta);
        digest(&mut self.world, &self.organ_timer, &mut out);
        tick_ai_timer(&mut self.ai_timer, delta, &mut self.world, &self.registry);
        Tick { messages: out, quit }
    }
}

/// The world `s` with a new room at its end: an entity that carries the
/// room marker and nothing else.
pub open spec fn founded(s: Seq<EntityView>) -> Seq<EntityView> {
    s.push(EntityView { room: Some(GameRoom), ..EntityView::bare() })
}

/// The world `s` with `e` marked as driven by `behaviour`.
pub open spec fn driven(s: Seq<EntityView>, e: EntityId, behaviour: AiBehavior) -> Seq<EntityView> {
    s.update(e.0 as int, EntityView { ai: Some(behaviour), ..entity(s, e) })
}

/// The world `s` with `e` moved into `room`. Where that cannot be, because
/// `room` is `e` or lies within it or one of the two is unknown, the world
/// as it is.
pub open spec fn placed(s: Seq<EntityView>, e: EntityId, room: EntityId) -> Seq<EntityView> {
    if live(s, e) && live(s, room) && !within(s, room, e) {
        reparented(s, e, room)
    } else {
        s
    }
}

/// Sets up a first world to try things in: a room with one monster of the
/// species `A` and one of the species `B` in it, each driven by the
/// behaviour of its species. Returns the room.
///
/// First the room is made, a new entity with the room marker. Then the
/// monster of `A` is made, marked with the next free number, under which
/// the behaviour of `A` is registered, and placed in the room; then the
/// same for `B`, with the number after it. A monster goes into the room
/// unless its species has built it around the room.
pub fn spawn_test<A: Monster, B: Monster>(world: &mut World, registry: &mut AiRegistry) -> (room:
    EntityId)
    requires
        old(world).wf(),
    ensures
        final(world).wf(),
        room.0 == old(world)@.len(),
        live(final(world)@, room),
        exists|first: EntityId, made_first: Seq<EntityView>, second: EntityId, made_second: Seq<
            EntityView,
        >|
            #![trigger
                A::made(founded(old(world)@), made_first, first),
                B::made(
                    placed(
                        driven(made_first, first, AiBehavior(old(registry).spec_len() as usize)),
                        first,
                        room,
                    ),
                    made_second,
                    second,
                )]
            {
                let first_number = AiBehavior(old(registry).spec_len() as usize);
                let second_number = AiBehavior((old(registry).spec_len() + 1) as usize);
                &&& A::made(founded(old(world)@), made_first, first)
                &&& live(made_first, first)
                &&& B::made(
                    placed(driven(made_first, first, first_number), first, room),
                    made_second,
                    second,
                )
                &&& live(made_second, second)
                &&& final(world)@ == placed(
                    driven(made_second, second, second_number),
                    second,
                    room,
                )
            },
        final(registry).spec_len() == old(registry).spec_len() + 2,
        forall|x: EntityId, b: Seq<EntityView>, a: Seq<EntityView>| #[trigger]
            final(registry).turn_of(AiBehavior(old(registry).spec_len() as usize), x, b, a)
                == A::turn(x, b, a),
        forall|x: EntityId, b: Seq<EntityView>, a: Seq<EntityView>| #[trigger]
            final(registry).turn_of(AiBehavior((old(registry).spec_len() + 1) as usize), x, b, a)
                == B::turn(x, b, a),
        forall|i: AiBehavior, x: EntityId, b: Seq<EntityView>, a: Seq<EntityView>|
            i.0 < old(registry).spec_len() ==> #[trigger] final(registry).turn_of(i, x, b, a)
                == old(registry).turn_of(i, x, b, a),
{
    let ghost first_number = AiBehavior(registry.spec_len() as usize);
    let ghost second_number = AiBehavior((registry.spec_len() + 1) as usize);
    let room = world.spawn();
    let _ = world.attach(room, Component::GameRoom(GameRoom));
    let ghost with_room = world@;
    assert(with_room =~= founded(old(world)@));
    let first = A::spawn(world, registry);
    let ghost with_first = world@;
    let ghost made_first = choose|mid: Seq<EntityView>| #[trigger]
        A::made(with_room, mid, first) && live(mid, first) && with_first == driven(
            mid,
            first,
            first_number,
        );
    let _ = world.set_parent(first, room);
    let ghost first_placed = world@;
    assert(first_placed == placed(with_first, first, room));
    let second = B::spawn(world, registry);
    let ghost with_second = world@;
    let ghost made_second = choose|mid: Seq<EntityView>| #[trigger]
        B::made(first_placed, mid, second) && live(mid, second) && with_second == driven(
            mid,
            second,
            second_number,
        );
    let _ = world.set_parent(second, room);
    assert(world@ == placed(with_second, second, room));
    assert(A::made(founded(old(world)@), made_first, first) && B::made(
        placed(driven(made_first, first, first_number), first, room),
        made_second,
        second,
    ));
    room
}

} // verus!
