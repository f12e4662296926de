use creature_sim::game::actors::organs::{digest, tick_timer, Organ, OrganParams, OrganTimer, OrganType};
use creature_sim::game::actors::player::process_input::{
    find_named, find_player, map_input_to_event, resolve, Kind, ParsedPlayerEvent,
};
use creature_sim::game::actors::player::parse_input::PlayerActionEventType;
use creature_sim::game::actors::player::{
    player_attack, player_devour, player_move_room, player_struggle, process_event, Player,
    PlayerAttackEvent, PlayerDevourEvent, PlayerInputStringEvent, PlayerMoveRoomEvent,
    PlayerStruggleEvent,
};
use creature_sim::game::actors::Actor;
use creature_sim::game::rooms::GameRoom;
use creature_sim::game::world::{Component, EntityId, World};
use creature_sim::game::{display_name_of, narrate, reject, SendMessageToBotEvent};

struct Scene {
    world: World,
    room: EntityId,
    slime: EntityId,
    stomach: EntityId,
    hero: EntityId,
}

fn named(world: &mut World, name: &str) -> EntityId {
    let e = world.spawn();
    world.attach(e, Component::Name(name.to_string())).unwrap();
    e
}

fn organ(attack: i32, capacity: i32) -> Organ {
    Organ::new(OrganParams {
        health: 100,
        attack,
        defense: 0,
        capacity,
        organ_type: OrganType::Generic,
    })
}

/// A room with a slime and a hero in it; the slime has a stomach.
fn scene() -> Scene {
    let mut world = World::new();
    let room = named(&mut world, "Cellar");
    world.attach(room, Component::GameRoom(GameRoom)).unwrap();
    let slime = named(&mut world, "Slime");
    world.attach(slime, Component::Actor(Actor::new(300, 50, 10))).unwrap();
    let stomach = named(&mut world, "Stomach");
    world.attach(stomach, Component::Organ(organ(20, 100))).unwrap();
    let hero = named(&mut world, "Hero");
    world.attach(hero, Component::Actor(Actor::new(500, 100, 40))).unwrap();
    world.attach(hero, Component::Player(Player(7))).unwrap();
    world.set_parent(slime, room).unwrap();
    world.set_parent(hero, room).unwrap();
    world.set_parent(stomach, slime).unwrap();
    Scene { world, room, slime, stomach, hero }
}

fn texts(out: &[SendMessageToBotEvent]) -> Vec<(Option<u64>, &str)> {
    out.iter().map(|m| (m.to, m.message.as_str())).collect()
}

#[test]
fn names_resolve_by_kind() {
    let s = scene();
    assert_eq!(find_named(&s.world, &"Slime".to_string(), Kind::Actor), Some(s.slime));
    assert_eq!(find_named(&s.world, &"Slime".to_string(), Kind::Organ), None);
    assert_eq!(find_named(&s.world, &"Stomach".to_string(), Kind::Organ), Some(s.stomach));
    assert_eq!(find_named(&s.world, &"Stomach".to_string(), Kind::Actor), None);
    assert_eq!(find_named(&s.world, &"Cellar".to_string(), Kind::Room), Some(s.room));
    assert_eq!(find_named(&s.world, &"slime".to_string(), Kind::Actor), None);
    assert_eq!(find_named(&s.world, &"Slim".to_string(), Kind::Actor), None);
    assert_eq!(find_named(&s.world, &"".to_string(), Kind::Actor), None);
    assert_eq!(find_player(&s.world, 7), Some(s.hero));
    assert_eq!(find_player(&s.world, 8), None);
}

#[test]
fn of_two_with_one_name_the_oldest_wins() {
    let mut s = scene();
    let second = named(&mut s.world, "Slime");
    s.world.attach(second, Component::Actor(Actor::new(1, 1, 1))).unwrap();
    assert_eq!(find_named(&s.world, &"Slime".to_string(), Kind::Actor), Some(s.slime));
    // An older entity of the same name but another kind does not count.
    let third = named(&mut s.world, "Cellar");
    s.world.attach(third, Component::Actor(Actor::new(1, 1, 1))).unwrap();
    assert_eq!(find_named(&s.world, &"Cellar".to_string(), Kind::Actor), Some(third));
    let twin = s.world.spawn();
    s.world.attach(twin, Component::Player(Player(7))).unwrap();
    assert_eq!(find_player(&s.world, 7), Some(s.hero));
}

#[test]
fn resolve_gives_events_with_entities() {
    let s = scene();
    assert_eq!(
        resolve(&s.world, s.hero, &PlayerActionEventType::Attack { target: "Slime".to_string() }),
        Ok(ParsedPlayerEvent::Attack(PlayerAttackEvent { player: s.hero, target: s.slime }))
    );
    assert_eq!(
        resolve(
            &s.world,
            s.slime,
            &PlayerActionEventType::Devour { target: "Hero".to_string(), organ: "Stomach".to_string() }
        ),
        Ok(ParsedPlayerEvent::Devour(PlayerDevourEvent {
            player: s.slime,
            prey: s.hero,
            organ: s.stomach
        }))
    );
    assert_eq!(
        resolve(&s.world, s.hero, &PlayerActionEventType::MoveRoom { room: "Cellar".to_string() }),
        Ok(ParsedPlayerEvent::Move(PlayerMoveRoomEvent { player: s.hero, room: s.room }))
    );
    assert_eq!(
        resolve(&s.world, s.hero, &PlayerActionEventType::Struggle),
        Ok(ParsedPlayerEvent::Struggle(PlayerStruggleEvent { player: s.hero }))
    );
}

#[test]
fn resolve_names_the_name_that_failed() {
    let s = scene();
    assert_eq!(
        resolve(&s.world, s.hero, &PlayerActionEventType::Attack { target: "Ogre".to_string() }),
        Err("Unknown target: Ogre".to_string())
    );
    assert_eq!(
        resolve(
            &s.world,
            s.hero,
            &PlayerActionEventType::Devour { target: "Ogre".to_string(), organ: "Maw".to_string() }
        ),
        Err("Unknown target: Ogre".to_string())
    );
    assert_eq!(
        resolve(
            &s.world,
            s.hero,
            &PlayerActionEventType::Devour { target: "Slime".to_string(), organ: "Maw".to_string() }
        ),
        Err("Unknown organ: Maw".to_string())
    );
    assert_eq!(
        resolve(&s.world, s.hero, &PlayerActionEventType::MoveRoom { room: "Attic".to_string() }),
        Err("Unknown room: Attic".to_string())
    );
}

#[test]
fn input_maps_to_events_or_to_reasons() {
    let s = scene();
    assert_eq!(
        map_input_to_event(7, &"attack Slime".to_string(), &s.world),
        Ok(ParsedPlayerEvent::Attack(PlayerAttackEvent { player: s.hero, target: s.slime }))
    );
    assert_eq!(
        map_input_to_event(7, &"devour Slime with Stomach".to_string(), &s.world),
        Ok(ParsedPlayerEvent::Devour(PlayerDevourEvent {
            player: s.hero,
            prey: s.slime,
            organ: s.stomach
        }))
    );
    assert_eq!(
        map_input_to_event(7, &"fly".to_string(), &s.world),
        Err("Unknown action".to_string())
    );
    assert_eq!(
        map_input_to_event(7, &"attack".to_string(), &s.world),
        Err("Missing target for attack".to_string())
    );
    assert_eq!(
        map_input_to_event(8, &"attack Slime".to_string(), &s.world),
        Err("Unknown player".to_string())
    );
    // The line is read before the player is looked up.
    assert_eq!(
        map_input_to_event(8, &"moveto".to_string(), &s.world),
        Err("Missing room name".to_string())
    );
    assert_eq!(
        map_input_to_event(7, &"attack Cellar".to_string(), &s.world),
        Err("Unknown target: Cellar".to_string())
    );
}

#[test]
fn events_are_routed_to_one_queue_each_in_order() {
    let s = scene();
    let input = vec![
        PlayerInputStringEvent(7, "attack Slime".to_string()),
        PlayerInputStringEvent(7, "bogus".to_string()),
        PlayerInputStringEvent(7, "struggle".to_string()),
        PlayerInputStringEvent(7, "attack Hero".to_string()),
        PlayerInputStringEvent(9, "struggle".to_string()),
        PlayerInputStringEvent(7, "moveto Cellar".to_string()),
        PlayerInputStringEvent(7, "devour Slime with Stomach".to_string()),
        PlayerInputStringEvent(7, "devour Slime with Maw".to_string()),
    ];
    let mut attack = vec![PlayerAttackEvent { player: s.room, target: s.room }];
    let mut devour = Vec::new();
    let mut moves = Vec::new();
    let mut struggle = Vec::new();
    let mut err = Vec::new();
    process_event(&s.world, &input, &mut attack, &mut devour, &mut moves, &mut struggle, &mut err);
    assert_eq!(
        attack,
        vec![
            PlayerAttackEvent { player: s.room, target: s.room },
            PlayerAttackEvent { player: s.hero, target: s.slime },
            PlayerAttackEvent { player: s.hero, target: s.hero },
        ]
    );
    assert_eq!(devour, vec![PlayerDevourEvent { player: s.hero, prey: s.slime, organ: s.stomach }]);
    assert_eq!(moves, vec![PlayerMoveRoomEvent { player: s.hero, room: s.room }]);
    assert_eq!(struggle, vec![PlayerStruggleEvent { player: s.hero }]);
    assert_eq!(
        texts(&err),
        vec![
            (Some(7), "Unknown action"),
            (Some(9), "Unknown player"),
            (Some(7), "Unknown organ: Maw"),
        ]
    );
}

#[test]
fn attack_takes_exactly_the_attackers_attack() {
    let mut s = scene();
    // Defense is of no account: whatever it is, 100 comes off.
    for defense in [0, 40, 1_000_000, -5] {
        let mut target = Actor::new(300, 50, defense);
        target.health_current = 250;
        s.world.attach(s.slime, Component::Actor(target)).unwrap();
        let mut out = Vec::new();
        player_attack(
            &vec![PlayerAttackEvent { player: s.hero, target: s.slime }],
            &mut s.world,
            &mut out,
        );
        assert_eq!(
            s.world.get_actor(s.slime),
            Some(Actor { health_current: 150, health_max: 300, attack: 50, defense })
        );
        assert_eq!(s.world.get_actor(s.hero), Some(Actor::new(500, 100, 40)));
        assert_eq!(texts(&out), vec![(None, "Hero attacks Slime, dealing 100 damage!")]);
    }
}

#[test]
fn attacks_resolve_in_order_of_arrival() {
    let mut s = scene();
    let mut out = vec![narrate("before".to_string())];
    player_attack(
        &vec![
            PlayerAttackEvent { player: s.hero, target: s.slime },
            PlayerAttackEvent { player: s.slime, target: s.hero },
            PlayerAttackEvent { player: s.hero, target: s.slime },
        ],
        &mut s.world,
        &mut out,
    );
    assert_eq!(s.world.get_actor(s.slime).unwrap().health_current, 100);
    assert_eq!(s.world.get_actor(s.hero).unwrap().health_current, 450);
    assert_eq!(
        texts(&out),
        vec![
            (None, "before"),
            (None, "Hero attacks Slime, dealing 100 damage!"),
            (None, "Slime attacks Hero, dealing 50 damage!"),
            (None, "Hero attacks Slime, dealing 100 damage!"),
        ]
    );
}

#[test]
fn an_attack_that_cannot_resolve_tells_its_sender() {
    let mut s = scene();
    let mut out = Vec::new();
    player_attack(
        &vec![
            PlayerAttackEvent { player: s.hero, target: s.stomach },
            PlayerAttackEvent { player: s.stomach, target: s.hero },
            PlayerAttackEvent { player: s.hero, target: s.hero },
            PlayerAttackEvent { player: s.hero, target: EntityId(99) },
            PlayerAttackEvent { player: EntityId(99), target: s.hero },
        ],
        &mut s.world,
        &mut out,
    );
    assert_eq!(s.world.get_actor(s.hero), Some(Actor::new(500, 100, 40)));
    assert_eq!(s.world.get_actor(s.slime), Some(Actor::new(300, 50, 10)));
    assert_eq!(
        texts(&out),
        vec![
            (Some(7), "Target is no longer valid"),
            (None, "Target is no longer valid"),
            (Some(7), "Target is no longer valid"),
            (Some(7), "Target is no longer valid"),
            (None, "Target is no longer valid"),
        ]
    );
}

#[test]
fn attack_with_negative_attack_and_without_names() {
    let mut w = World::new();
    let a = w.spawn();
    let b = w.spawn();
    w.attach(a, Component::Actor(Actor::new(10, -7, 0))).unwrap();
    w.attach(b, Component::Actor(Actor::new(10, 0, 0))).unwrap();
    let mut out = Vec::new();
    player_attack(&vec![PlayerAttackEvent { player: a, target: b }], &mut w, &mut out);
    assert_eq!(w.get_actor(b).unwrap().health_current, 17);
    assert_eq!(texts(&out), vec![(None, "someone attacks someone, dealing -7 damage!")]);
    assert_eq!(display_name_of(&w, a), "someone");
    assert_eq!(display_name_of(&w, EntityId(5)), "someone");
}

#[test]
fn rejection_goes_to_the_player_behind_the_entity() {
    let s = scene();
    let m = reject(&s.world, s.hero);
    assert_eq!((m.to, m.message.as_str()), (Some(7), "Target is no longer valid"));
    let m = reject(&s.world, s.slime);
    assert_eq!((m.to, m.message.as_str()), (None, "Target is no longer valid"));
    let m = narrate("all hear this".to_string());
    assert_eq!((m.to, m.message.as_str()), (None, "all hear this"));
}

#[test]
fn devour_moves_the_prey_into_the_organ() {
    let mut s = scene();
    let mut out = Vec::new();
    player_devour(
        &vec![PlayerDevourEvent { player: s.slime, prey: s.hero, organ: s.stomach }],
        &mut s.world,
        &mut out,
    );
    assert_eq!(s.world.parent_of(s.hero), Some(s.stomach));
    assert_eq!(s.world.children_of(s.stomach), vec![s.hero]);
    assert_eq!(s.world.children_of(s.room), vec![s.slime]);
    assert_eq!(texts(&out), vec![(None, "Slime devours Hero with their Stomach!")]);
    // Nothing but the edge has changed.
    assert_eq!(s.world.get_actor(s.hero), Some(Actor::new(500, 100, 40)));
    assert_eq!(s.world.get_organ(s.stomach), Some(organ(20, 100)));
}

#[test]
fn of_several_devourings_the_last_wins() {
    let mut s = scene();
    let maw = named(&mut s.world, "Maw");
    s.world.attach(maw, Component::Organ(organ(5, 1))).unwrap();
    let gut = named(&mut s.world, "Gut");
    s.world.attach(gut, Component::Organ(organ(5, 1))).unwrap();
    let events = vec![
        PlayerDevourEvent { player: s.slime, prey: s.hero, organ: s.stomach },
        PlayerDevourEvent { player: s.slime, prey: s.hero, organ: maw },
        PlayerDevourEvent { player: s.slime, prey: s.hero, organ: s.stomach },
        PlayerDevourEvent { player: s.slime, prey: s.hero, organ: gut },
    ];
    let mut out = Vec::new();
    player_devour(&events, &mut s.world, &mut out);
    assert_eq!(s.world.parent_of(s.hero), Some(gut));
    assert_eq!(s.world.children_of(gut), vec![s.hero]);
    assert!(s.world.children_of(maw).is_empty());
    assert!(s.world.children_of(s.stomach).is_empty());
    assert_eq!(s.world.children_of(s.room), vec![s.slime]);
    for i in 0..s.world.len() {
        let holds = s.world.children_of(EntityId(i)).contains(&s.hero);
        assert_eq!(holds, EntityId(i) == gut);
    }
    assert_eq!(out.len(), 4);
    assert_eq!(out[3].message, "Slime devours Hero with their Gut!");
}

#[test]
fn a_devouring_that_cannot_resolve_changes_nothing() {
    let mut s = scene();
    let mut out = Vec::new();
    player_devour(
        &vec![
            // The organ is no organ.
            PlayerDevourEvent { player: s.hero, prey: s.slime, organ: s.room },
            // The organ is unknown.
            PlayerDevourEvent { player: s.hero, prey: s.slime, organ: EntityId(50) },
            // The prey is unknown.
            PlayerDevourEvent { player: s.hero, prey: EntityId(50), organ: s.stomach },
            // The organ lies inside the prey.
            PlayerDevourEvent { player: s.slime, prey: s.slime, organ: s.stomach },
            // The organ is the prey.
            PlayerDevourEvent { player: s.slime, prey: s.stomach, organ: s.stomach },
        ],
        &mut s.world,
        &mut out,
    );
    assert_eq!(s.world.parent_of(s.slime), Some(s.room));
    assert_eq!(s.world.parent_of(s.stomach), Some(s.slime));
    assert_eq!(s.world.parent_of(s.hero), Some(s.room));
    assert_eq!(s.world.children_of(s.room), vec![s.slime, s.hero]);
    assert_eq!(
        texts(&out),
        vec![
            (Some(7), "Target is no longer valid"),
            (Some(7), "Target is no longer valid"),
            (Some(7), "Target is no longer valid"),
            (None, "Target is no longer valid"),
            (None, "Target is no longer valid"),
        ]
    );
}

#[test]
fn moves_and_struggles_are_only_told_of() {
    let s = scene();
    let mut out = Vec::new();
    player_move_room(
        &vec![
            PlayerMoveRoomEvent { player: s.hero, room: s.room },
            PlayerMoveRoomEvent { player: s.slime, room: s.room },
        ],
        &mut out,
    );
    player_struggle(&vec![PlayerStruggleEvent { player: s.hero }], &mut out);
    player_struggle(&Vec::new(), &mut out);
    assert_eq!(
        texts(&out),
        vec![(None, "Move event"), (None, "Move event"), (None, "Struggle event")]
    );
    assert_eq!(s.world.parent_of(s.hero), Some(s.room));
}

#[test]
fn digestion_waits_for_the_timer() {
    let mut s = scene();
    s.world.set_parent(s.hero, s.stomach).unwrap();
    let mut timer = OrganTimer::new(30);
    let mut out = Vec::new();
    digest(&mut s.world, &timer, &mut out);
    tick_timer(&mut timer, 29);
    digest(&mut s.world, &timer, &mut out);
    assert_eq!(s.world.get_actor(s.hero).unwrap().health_current, 500);
    assert!(out.is_empty());
    tick_timer(&mut timer, 1);
    digest(&mut s.world, &timer, &mut out);
    assert_eq!(s.world.get_actor(s.hero).unwrap().health_current, 480);
    assert_eq!(texts(&out), vec![(None, "Stomach digests Hero for 20 damage!")]);
    tick_timer(&mut timer, 1);
    digest(&mut s.world, &timer, &mut out);
    assert_eq!(s.world.get_actor(s.hero).unwrap().health_current, 480);
    assert_eq!(out.len(), 1);
}

#[test]
fn digestion_runs_once_on_a_tick_with_several_fires() {
    let mut s = scene();
    s.world.set_parent(s.hero, s.stomach).unwrap();
    let mut timer = OrganTimer::new(30);
    tick_timer(&mut timer, 95);
    assert_eq!(timer.0.times_finished_this_tick(), 3);
    let mut out = Vec::new();
    digest(&mut s.world, &timer, &mut out);
    assert_eq!(s.world.get_actor(s.hero).unwrap().health_current, 480);
    assert_eq!(texts(&out), vec![(None, "Stomach digests Hero for 20 damage!")]);
}

#[test]
fn digestion_has_no_floor_at_zero() {
    let mut s = scene();
    let mut weak = Actor::new(500, 100, 40);
    weak.health_current = 5;
    s.world.attach(s.hero, Component::Actor(weak)).unwrap();
    s.world.set_parent(s.hero, s.stomach).unwrap();
    let mut timer = OrganTimer::new(30);
    // Two periods in one tick: still one round.
    tick_timer(&mut timer, 60);
    let mut out = Vec::new();
    digest(&mut s.world, &timer, &mut out);
    assert_eq!(s.world.get_actor(s.hero).unwrap().health_current, -15);
    assert_eq!(s.world.parent_of(s.hero), Some(s.stomach));
    assert_eq!(out.len(), 1);
}

#[test]
fn digestion_reaches_direct_actor_contents_only() {
    let mut s = scene();
    // Into the stomach: the hero, a nameless actor, and a thing that is no actor.
    let rat = s.world.spawn();
    s.world.attach(rat, Component::Actor(Actor::new(30, 1, 0))).unwrap();
    let pebble = named(&mut s.world, "Pebble");
    // A second organ, inside the hero, with its own content.
    let pouch = named(&mut s.world, "Pouch");
    s.world.attach(pouch, Component::Organ(organ(3, 10))).unwrap();
    let flea = named(&mut s.world, "Flea");
    s.world.attach(flea, Component::Actor(Actor::new(5, 0, 0))).unwrap();
    s.world.set_parent(s.hero, s.stomach).unwrap();
    s.world.set_parent(rat, s.stomach).unwrap();
    s.world.set_parent(pebble, s.stomach).unwrap();
    s.world.set_parent(pouch, s.hero).unwrap();
    s.world.set_parent(flea, pouch).unwrap();
    let mut timer = OrganTimer::new(30);
    tick_timer(&mut timer, 30);
    let mut out = Vec::new();
    digest(&mut s.world, &timer, &mut out);
    assert_eq!(s.world.get_actor(s.hero).unwrap().health_current, 480);
    assert_eq!(s.world.get_actor(rat).unwrap().health_current, 10);
    assert_eq!(s.world.get_actor(flea).unwrap().health_current, 2);
    // The slime holds the stomach but is no organ; the room holds actors but is no organ.
    assert_eq!(s.world.get_actor(s.slime).unwrap().health_current, 300);
    assert_eq!(
        texts(&out),
        vec![
            (None, "Stomach digests Hero for 20 damage!"),
            (None, "Stomach digests someone for 20 damage!"),
            (None, "Pouch digests Flea for 3 damage!"),
        ]
    );
    assert_eq!(s.world.children_of(s.stomach), vec![s.hero, rat, pebble]);
}
