//! The world store: entities, the components attached to them, and the
//! containment edges between them.

use vstd::prelude::*;
use crate::game::actors::Actor;
use crate::game::actors::ai::AiBehavior;
use crate::game::actors::organs::Organ;
use crate::game::actors::player::Player;
use crate::game::rooms::GameRoom;

verus! {

/// Names an entity. An entity has no kind of its own: what it is follows
/// from the components attached to it.
#[derive(Clone, Copy, Debug, PartialEq, Eq, Structural)]
pub struct EntityId(pub usize);

/// Why the store refused an operation.
#[derive(Clone, Copy, Debug, PartialEq, Eq, Structural)]
pub enum WorldError {
    /// An identifier names no entity of this world.
    NoSuchEntity,
    /// The new container is the entity itself or lies inside it.
    Cycle,
}

/// Something that can be attached to an entity.
#[derive(Debug)]
pub enum Component {
    Name(String),
    Actor(Actor),
    Organ(Organ),
    Player(Player),
    AiBehavior(AiBehavior),
    GameRoom(GameRoom),
}

/// One entity as the contracts see it.
pub struct EntityView {
    pub parent: Option<EntityId>,
    pub children: Seq<EntityId>,
    pub name: Option<Seq<char>>,
    pub actor: Option<Actor>,
    pub organ: Option<Organ>,
    pub player: Option<Player>,
    pub ai: Option<AiBehavior>,
    pub room: Option<GameRoom>,
}

impl EntityView {
    /// An entity with nothing attached, inside nothing, holding nothing.
    pub open spec fn bare() -> EntityView {
        EntityView {
            parent: None,
            children: Seq::empty(),
            name: None,
            actor: None,
            organ: None,
            player: None,
            ai: None,
            room: None,
        }
    }

    /// This entity once `c` is attached: `c` takes the place of any
    /// component of its kind.
    pub open spec fn with(self, c: Component) -> EntityView {
        match c {
            Component::Name(n) => EntityView { name: Some(n@), ..self },
            Component::Actor(a) => EntityView { actor: Some(a), ..self },
            Component::Organ(o) => EntityView { organ: Some(o), ..self },
            Component::Player(p) => EntityView { player: Some(p), ..self },
            Component::AiBehavior(b) => EntityView { ai: Some(b), ..self },
            Component::GameRoom(r) => EntityView { room: Some(r), ..self },
        }
    }
}

/// Whether `e` names an entity of the world `s`.
pub open spec fn live(s: Seq<EntityView>, e: EntityId) -> bool {
    e.0 < s.len()
}

/// The entity that `e` names.
pub open spec fn entity(s: Seq<EntityView>, e: EntityId) -> EntityView
    recommends
        live(s, e),
{
    s[e.0 as int]
}

/// The entity that contains `e`, if any.
pub open spec fn parent_in(s: Seq<EntityView>, e: EntityId) -> Option<EntityId> {
    if live(s, e) {
        entity(s, e).parent
    } else {
        None
    }
}

/// The entities that `e` contains directly, in the order in which they came.
pub open spec fn children_in(s: Seq<EntityView>, e: EntityId) -> Seq<EntityId> {
    if live(s, e) {
        entity(s, e).children
    } else {
        Seq::empty()
    }
}

/// Whether `child` records `parent` as the entity that contains it.
pub open spec fn is_parent(s: Seq<EntityView>, child: EntityId, parent: EntityId) -> bool {
    live(s, child) && entity(s, child).parent == Some(parent)
}

/// Whether `parent` lists `child` among the entities that it contains.
pub open spec fn holds(s: Seq<EntityView>, parent: EntityId, child: EntityId) -> bool {
    live(s, parent) && entity(s, parent).children.contains(child)
}

/// The two records of containment agree: an entity lists exactly the
/// entities that name it as their container, each of them once. So every
/// edge joins two entities of the world, and no entity has two containers.
pub open spec fn linked(s: Seq<EntityView>) -> bool {
    &&& forall|p: EntityId, c: EntityId|
        #![trigger is_parent(s, c, p)]
        #![trigger holds(s, p, c)]
        is_parent(s, c, p) <==> holds(s, p, c)
    &&& forall|p: EntityId| live(s, p) ==> (#[trigger] entity(s, p)).children.no_duplicates()
}

/// The entity `n` steps up from `e`: `e` itself for zero steps, else the
/// container of the one before. `None` where the chain has ended.
pub open spec fn ancestor(s: Seq<EntityView>, e: EntityId, n: nat) -> Option<EntityId>
    decreases n,
{
    if n == 0 {
        Some(e)
    } else {
        match parent_in(s, e) {
            Some(p) => ancestor(s, p, (n - 1) as nat),
            None => None,
        }
    }
}

/// Whether `e` is `outer` or lies inside it, at any depth.
pub open spec fn within(s: Seq<EntityView>, e: EntityId, outer: EntityId) -> bool {
    exists|n: nat| ancestor(s, e, n) == Some(outer)
}

/// Whether `n` containment edges lead from `from` down to `to`.
pub open spec fn reaches(s: Seq<EntityView>, from: EntityId, to: EntityId, n: nat) -> bool
    decreases n,
{
    if n == 0 {
        from == to
    } else {
        exists|mid: EntityId| #[trigger]
            holds(s, from, mid) && reaches(s, mid, to, (n - 1) as nat)
    }
}

/// Containment is a forest: the records agree, and no entity is reached
/// from itself along one or more containment edges.
pub open spec fn forest(s: Seq<EntityView>) -> bool {
    &&& linked(s)
    &&& forall|e: EntityId, n: nat| n >= 1 ==> !#[trigger] reaches(s, e, e, n)
}

/// The world after `child` has moved into `parent`: `child` leaves the list
/// of its former container, joins the end of `parent`'s list, and names
/// `parent` as its container. Nothing else changes.
pub open spec fn reparented(s: Seq<EntityView>, child: EntityId, parent: EntityId) -> Seq<
    EntityView,
>
    recommends
        live(s, child),
        live(s, parent),
{
    let detached = match entity(s, child).parent {
        Some(q) => s.update(
            q.0 as int,
            EntityView {
                children: entity(s, q).children.remove(entity(s, q).children.index_of(child)),
                ..entity(s, q)
            },
        ),
        None => s,
    };
    let adopted = detached.update(
        parent.0 as int,
        EntityView {
            children: entity(detached, parent).children.push(child),
            ..entity(detached, parent)
        },
    );
    adopted.update(child.0 as int, EntityView { parent: Some(parent), ..entity(adopted, child) })
}

/// The name attached to `e`, if any.
pub open spec fn name_in(s: Seq<EntityView>, e: EntityId) -> Option<Seq<char>> {
    if live(s, e) {
        entity(s, e).name
    } else {
        None
    }
}

/// The actor component attached to `e`, if any.
pub open spec fn actor_in(s: Seq<EntityView>, e: EntityId) -> Option<Actor> {
    if live(s, e) {
        entity(s, e).actor
    } else {
        None
    }
}

/// The organ component attached to `e`, if any.
pub open spec fn organ_in(s: Seq<EntityView>, e: EntityId) -> Option<Organ> {
    if live(s, e) {
        entity(s, e).organ
    } else {
        None
    }
}

/// The player component attached to `e`, if any.
pub open spec fn player_in(s: Seq<EntityView>, e: EntityId) -> Option<Player> {
    if live(s, e) {
        entity(s, e).player
    } else {
        None
    }
}

/// The behaviour attached to `e`, if any.
pub open spec fn ai_in(s: Seq<EntityView>, e: EntityId) -> Option<AiBehavior> {
    if live(s, e) {
        entity(s, e).ai
    } else {
        None
    }
}

/// The room marker attached to `e`, if any.
pub open spec fn room_in(s: Seq<EntityView>, e: EntityId) -> Option<GameRoom> {
    if live(s, e) {
        entity(s, e).room
    } else {
        None
    }
}

/// Whether `a` and `b` have the same entities with the same containment
/// edges, whatever else is attached to them.
pub open spec fn same_edges(a: Seq<EntityView>, b: Seq<EntityView>) -> bool {
    &&& a.len() == b.len()
    &&& forall|i: int|
        0 <= i < a.len() ==> (#[trigger] a[i]).parent == b[i].parent && a[i].children
            == b[i].children
}

/// `l` with its one occurrence of `x` taken out.
pub open spec fn without(l: Seq<EntityId>, x: EntityId) -> Seq<EntityId> {
    l.remove(l.index_of(x))
}

/// Taking the one `x` out of a list without repetitions leaves the others
/// as they were, without repetitions and without `x`.
proof fn lemma_without(l: Seq<EntityId>, x: EntityId)
    requires
        l.no_duplicates(),
        l.contains(x),
    ensures
        without(l, x).no_duplicates(),
        !without(l, x).contains(x),
        forall|y: EntityId| y != x ==> (without(l, x).contains(y) <==> l.contains(y)),
{
    let i = l.index_of(x);
    let r = without(l, x);
    assert(0 <= i < l.len() && l[i] == x);
    assert(r.len() == l.len() - 1);
    assert(forall|j: int| 0 <= j < i ==> r[j] == l[j]);
    assert(forall|j: int| i <= j < r.len() ==> r[j] == l[j + 1]);
    assert forall|y: EntityId| y != x implies (r.contains(y) <==> l.contains(y)) by {
        if l.contains(y) {
            let j = l.index_of(y);
            if j < i {
                assert(r[j] == y);
            } else {
                assert(r[j - 1] == y);
            }
        }
        if r.contains(y) {
            let j = r.index_of(y);
            if j < i {
                assert(l[j] == y);
            } else {
                assert(l[j + 1] == y);
            }
        }
    }
    if r.contains(x) {
        let j = r.index_of(x);
        if j < i {
            assert(l[j] == x);
        } else {
            assert(l[j + 1] == x);
        }
    }
}

/// Adding a new entity to the end of a list without repetitions keeps it so.
proof fn lemma_push(l: Seq<EntityId>, x: EntityId)
    requires
        l.no_duplicates(),
        !l.contains(x),
    ensures
        l.push(x).no_duplicates(),
        forall|y: EntityId| l.push(x).contains(y) <==> (l.contains(y) || y == x),
{
    let r = l.push(x);
    assert forall|y: EntityId| r.contains(y) <==> (l.contains(y) || y == x) by {
        if l.contains(y) {
            let j = l.index_of(y);
            assert(r[j] == y);
        }
        if y == x {
            assert(r[l.len() as int] == x);
        }
        if r.contains(y) {
            let j = r.index_of(y);
            if j < l.len() {
                assert(l[j] == y);
            }
        }
    }
    assert forall|i: int, j: int| 0 <= i < r.len() && 0 <= j < r.len() && i != j implies r[i]
        != r[j] by {
        if i < l.len() && j < l.len() {
        } else if i < l.len() {
            assert(l[i] == r[i]);
        } else {
            assert(l[j] == r[j]);
        }
    }
}

/// The step after `n` steps up from `e` leads from where those ended to
/// its container.
pub proof fn lemma_ancestor_step(s: Seq<EntityView>, e: EntityId, n: nat)
    ensures
        ancestor(s, e, n + 1) == match ancestor(s, e, n) {
            Some(a) => parent_in(s, a),
            None => None,
        },
    decreases n,
{
    reveal_with_fuel(ancestor, 2);
    if n > 0 {
        match parent_in(s, e) {
            Some(p) => {
                lemma_ancestor_step(s, p, (n - 1) as nat);
            },
            None => {},
        }
    }
}

/// Once the chain up from `e` has ended, it stays ended.
pub proof fn lemma_ancestor_ended(s: Seq<EntityView>, e: EntityId, n: nat, m: nat)
    requires
        ancestor(s, e, n) is None,
        n <= m,
    ensures
        ancestor(s, e, m) is None,
    decreases m - n,
{
    if n < m {
        lemma_ancestor_step(s, e, n);
        lemma_ancestor_ended(s, e, n + 1, m);
    }
}

/// Moving `child` into `parent` keeps the two records of containment in
/// agreement, and changes who contains whom for `child` alone.
pub proof fn lemma_reparented_linked(s: Seq<EntityView>, child: EntityId, parent: EntityId)
    requires
        linked(s),
        live(s, child),
        live(s, parent),
        child != parent,
    ensures
        linked(reparented(s, child, parent)),
        reparented(s, child, parent).len() == s.len(),
        forall|c: EntityId, p: EntityId|
            is_parent(reparented(s, child, parent), c, p) <==> (if c == child {
                p == parent
            } else {
                is_parent(s, c, p)
            }),
{
    let t = reparented(s, child, parent);
    let q = entity(s, child).parent;
    // The list of the former container, with and without the child.
    if q is Some {
        assert(is_parent(s, child, q->0));
        assert(holds(s, q->0, child));
        lemma_without(entity(s, q->0).children, child);
    }
    let base = if q == Some(parent) {
        without(entity(s, parent).children, child)
    } else {
        entity(s, parent).children
    };
    assert(entity(t, parent).children == base.push(child));
    assert(base.no_duplicates() && !base.contains(child)) by {
        if q != Some(parent) {
            if entity(s, parent).children.contains(child) {
                assert(holds(s, parent, child));
                assert(is_parent(s, child, parent));
            }
        }
    }
    lemma_push(base, child);
    assert forall|p: EntityId, c: EntityId|
        #![trigger is_parent(t, c, p)]
        #![trigger holds(t, p, c)]
        is_parent(t, c, p) <==> holds(t, p, c) by {
        if c == child {
            if live(t, p) && p != parent {
                if q == Some(p) {
                    assert(entity(t, p).children == without(entity(s, p).children, child));
                } else {
                    assert(entity(t, p).children == entity(s, p).children);
                    assert(holds(s, p, child) <==> is_parent(s, child, p));
                }
            }
        } else {
            assert(is_parent(t, c, p) <==> is_parent(s, c, p));
            assert(is_parent(s, c, p) <==> holds(s, p, c));
            if live(t, p) {
                if p == parent {
                    if q == Some(parent) {
                    }
                } else if q == Some(p) {
                    assert(entity(t, p).children == without(entity(s, p).children, child));
                } else {
                    assert(entity(t, p).children == entity(s, p).children);
                }
            }
        }
    }
    assert forall|p: EntityId| live(t, p) implies (#[trigger] entity(
        t,
        p,
    )).children.no_duplicates() by {
        assert(entity(s, p).children.no_duplicates());
        if p == parent {
        } else if q == Some(p) {
            assert(entity(t, p).children == without(entity(s, p).children, child));
        } else {
            assert(entity(t, p).children == entity(s, p).children);
        }
    }
}

/// Whether `depth` gives every entity a greater number than its container.
spec fn ranked_by(s: Seq<EntityView>, depth: Seq<nat>) -> bool {
    &&& depth.len() == s.len()
    &&& forall|c: EntityId, p: EntityId| #[trigger]
        is_parent(s, c, p) ==> p.0 < depth.len() && depth[p.0 as int] < depth[c.0 as int]
}

/// The depths after `child` has moved into `parent`: `child` and all that
/// lies inside it sink below `parent`.
spec fn deepened(s: Seq<EntityView>, depth: Seq<nat>, child: EntityId, parent: EntityId) -> Seq<
    nat,
> {
    Seq::new(
        depth.len(),
        |i: int|
            if within(s, EntityId(i as usize), child) {
                depth[i] + depth[parent.0 as int] + 1
            } else {
                depth[i]
            },
    )
}

/// Each step up leads to a smaller depth.
proof fn lemma_ancestor_deeper(s: Seq<EntityView>, depth: Seq<nat>, e: EntityId, n: nat)
    requires
        linked(s),
        ranked_by(s, depth),
        ancestor(s, e, n) is Some,
        n >= 1,
    ensures
        live(s, e),
        live(s, ancestor(s, e, n).unwrap()),
        depth[ancestor(s, e, n).unwrap().0 as int] + n <= depth[e.0 as int],
    decreases n,
{
    reveal_with_fuel(ancestor, 2);
    let p = parent_in(s, e)->0;
    assert(is_parent(s, e, p));
    assert(holds(s, p, e));
    if n > 1 {
        lemma_ancestor_deeper(s, depth, p, (n - 1) as nat);
    }
}

/// An entity lies within `outer` exactly if it is `outer` or its container
/// lies within `outer`.
proof fn lemma_within_parent(s: Seq<EntityView>, c: EntityId, p: EntityId, outer: EntityId)
    requires
        is_parent(s, c, p),
        c != outer,
    ensures
        within(s, c, outer) <==> within(s, p, outer),
{
    reveal_with_fuel(ancestor, 2);
    if within(s, p, outer) {
        let n = choose|n: nat| ancestor(s, p, n) == Some(outer);
        assert(ancestor(s, c, n + 1) == Some(outer));
    }
    if within(s, c, outer) {
        let n = choose|n: nat| ancestor(s, c, n) == Some(outer);
        assert(n != 0);
        assert(ancestor(s, p, (n - 1) as nat) == Some(outer));
    }
}

/// Moving `child` into a `parent` that does not lie within it keeps every
/// entity deeper than its container.
proof fn lemma_reparented_ranked(
    s: Seq<EntityView>,
    depth: Seq<nat>,
    child: EntityId,
    parent: EntityId,
)
    requires
        linked(s),
        ranked_by(s, depth),
        live(s, child),
        live(s, parent),
        !within(s, parent, child),
    ensures
        ranked_by(reparented(s, child, parent), deepened(s, depth, child, parent)),
{
    let t = reparented(s, child, parent);
    let d = deepened(s, depth, child, parent);
    assert(ancestor(s, parent, 0) == Some(parent));
    assert(child != parent);
    lemma_reparented_linked(s, child, parent);
    assert forall|c: EntityId, p: EntityId| #[trigger] is_parent(t, c, p) implies p.0 < d.len()
        && d[p.0 as int] < d[c.0 as int] by {
        assert(EntityId(c.0 as int as usize) == c);
        if c == child {
            assert(p == parent);
            assert(EntityId(p.0 as int as usize) == p);
            assert(ancestor(s, child, 0) == Some(child));
            assert(within(s, child, child));
        } else {
            assert(is_parent(s, c, p));
            assert(holds(s, p, c));
            assert(EntityId(p.0 as int as usize) == p);
            lemma_within_parent(s, c, p, child);
        }
    }
}

/// Along containment edges, the upper end is the ancestor of the lower.
proof fn lemma_reaches_ancestor(s: Seq<EntityView>, from: EntityId, to: EntityId, n: nat)
    requires
        linked(s),
        reaches(s, from, to, n),
    ensures
        ancestor(s, to, n) == Some(from),
    decreases n,
{
    if n > 0 {
        let mid = choose|mid: EntityId| #[trigger]
            holds(s, from, mid) && reaches(s, mid, to, (n - 1) as nat);
        lemma_reaches_ancestor(s, mid, to, (n - 1) as nat);
        lemma_ancestor_step(s, to, (n - 1) as nat);
        assert(is_parent(s, mid, from));
    }
}

struct Slot {
    parent: Option<EntityId>,
    children: Vec<EntityId>,
    name: Option<String>,
    actor: Option<Actor>,
    organ: Option<Organ>,
    player: Option<Player>,
    ai: Option<AiBehavior>,
    room: Option<GameRoom>,
}

impl View for Slot {
    type V = EntityView;

    closed spec fn view(&self) -> EntityView {
        EntityView {
            parent: self.parent,
            children: self.children@,
            name: match self.name {
                Some(n) => Some(n@),
                None => None,
            },
            actor: self.actor,
            organ: self.organ,
            player: self.player,
            ai: self.ai,
            room: self.room,
        }
    }
}

/// The entities of a world, each with its components and its place in the
/// containment hierarchy. Entities are numbered from zero in the order in
/// which they were spawned.
pub struct World {
    slots: Vec<Slot>,
    depth: Ghost<Seq<nat>>,
}

impl View for World {
    type V = Seq<EntityView>;

    closed spec fn view(&self) -> Seq<EntityView> {
        Seq::new(self.slots@.len(), |i: int| self.slots@[i]@)
    }
}

impl World {
    /// The part of the invariant that rules out cycles: every entity lies
    /// strictly deeper than its container.
    pub closed spec fn ranked(&self) -> bool {
        ranked_by(self@, self.depth@)
    }

    /// The invariant of the store.
    pub open spec fn wf(&self) -> bool {
        linked(self@) && self.ranked()
    }

    /// A world without entities.
    pub fn new() -> (w: World)
        ensures
            w.wf(),
            w@ == Seq::<EntityView>::empty(),
    {
        let w = World { slots: Vec::new(), depth: Ghost(Seq::empty()) };
        assert(w@ =~= Seq::<EntityView>::empty());
        w
    }

    /// The number of entities.
    pub fn len(&self) -> (n: usize)
        ensures
            n == self@.len(),
    {
        self.slots.len()
    }

    /// Whether `e` names an entity of this world.
    pub fn contains(&self, e: EntityId) -> (b: bool)
        ensures
            b == live(self@, e),
    {
        e.0 < self.slots.len()
    }

    /// Creates an entity with nothing attached and returns its name.
    pub fn spawn(&mut self) -> (e: EntityId)
        requires
            old(self).wf(),
        ensures
            final(self).wf(),
            e.0 == old(self)@.len(),
            final(self)@ == old(self)@.push(EntityView::bare()),
    {
        let e = EntityId(self.slots.len());
        self.slots.push(
            Slot {
                parent: None,
                children: Vec::new(),
                name: None,
                actor: None,
                organ: None,
                player: None,
                ai: None,
                room: None,
            },
        );
        proof {
            self.depth@ = self.depth@.push(0);
            let old_s = old(self)@;
            let new_s = self@;
            assert(new_s =~= old_s.push(EntityView::bare()));
            assert forall|p: EntityId, c: EntityId|
                #![trigger is_parent(new_s, c, p)]
                #![trigger holds(new_s, p, c)]
                is_parent(new_s, c, p) <==> holds(new_s, p, c) by {
                assert(is_parent(new_s, c, p) <==> is_parent(old_s, c, p));
                assert(holds(new_s, p, c) <==> holds(old_s, p, c));
            }
            assert forall|p: EntityId| live(new_s, p) implies (#[trigger] entity(
                new_s,
                p,
            )).children.no_duplicates() by {
                if live(old_s, p) {
                    assert(entity(new_s, p) == entity(old_s, p));
                }
            }
            assert forall|c: EntityId, p: EntityId| #[trigger]
                is_parent(new_s, c, p) implies p.0 < self.depth@.len() && self.depth@[p.0 as int]
                < self.depth@[c.0 as int] by {
                assert(is_parent(old_s, c, p));
            }
        }
        e
    }

    /// Attaches `c` to `e`, in place of any component of the same kind.
    /// Fails, and changes nothing, if `e` names no entity.
    pub fn attach(&mut self, e: EntityId, c: Component) -> (r: Result<(), WorldError>)
        requires
            old(self).wf(),
        ensures
            final(self).wf(),
            live(old(self)@, e) ==> r is Ok && final(self)@ == old(self)@.update(
                e.0 as int,
                entity(old(self)@, e).with(c),
            ),
            !live(old(self)@, e) ==> r == Err::<(), WorldError>(WorldError::NoSuchEntity)
                && final(self)@ == old(self)@,
    {
        if e.0 >= self.slots.len() {
            return Err(WorldError::NoSuchEntity);
        }
        let ghost c_seen = c;
        match c {
            Component::Name(n) => {
                self.slots[e.0].name = Some(n);
            },
            Component::Actor(a) => {
                self.slots[e.0].actor = Some(a);
            },
            Component::Organ(o) => {
                self.slots[e.0].organ = Some(o);
            },
            Component::Player(p) => {
                self.slots[e.0].player = Some(p);
            },
            Component::AiBehavior(b) => {
                self.slots[e.0].ai = Some(b);
            },
            Component::GameRoom(g) => {
                self.slots[e.0].room = Some(g);
            },
        }
        proof {
            assert(self@ =~= old(self)@.update(e.0 as int, entity(old(self)@, e).with(c_seen)));
            old(self).lemma_same_edges(self);
        }
        Ok(())
    }

    /// A world with the edges and the depths of a sound world is sound.
    proof fn lemma_same_edges(&self, other: &World)
        requires
            self.wf(),
            same_edges(self@, other@),
            self.depth@ == other.depth@,
        ensures
            other.wf(),
    {
        let a = self@;
        let b = other@;
        assert forall|p: EntityId, c: EntityId|
            #![trigger is_parent(b, c, p)]
            #![trigger holds(b, p, c)]
            is_parent(b, c, p) <==> holds(b, p, c) by {
            assert(is_parent(b, c, p) <==> is_parent(a, c, p));
            assert(holds(b, p, c) <==> holds(a, p, c));
        }
        assert forall|p: EntityId| live(b, p) implies (#[trigger] entity(
            b,
            p,
        )).children.no_duplicates() by {
            assert(entity(a, p).children.no_duplicates());
        }
        assert forall|c: EntityId, p: EntityId| #[trigger] is_parent(b, c, p) implies p.0
            < other.depth@.len() && other.depth@[p.0 as int] < other.depth@[c.0 as int] by {
            assert(is_parent(a, c, p));
        }
    }

    /// The name attached to `e`, if any.
    pub fn get_name(&self, e: EntityId) -> (r: Option<&String>)
        ensures
            match r {
                Some(n) => name_in(self@, e) == Some(n@),
                None => name_in(self@, e) is None,
            },
    {
        if e.0 < self.slots.len() {
            self.slots[e.0].name.as_ref()
        } else {
            None
        }
    }

    /// The actor component attached to `e`, if any.
    pub fn get_actor(&self, e: EntityId) -> (r: Option<Actor>)
        ensures
            r == actor_in(self@, e),
    {
        if e.0 < self.slots.len() {
            self.slots[e.0].actor
        } else {
            None
        }
    }

    /// The actor component attached to `e`, if any, to be changed in place.
    /// Whatever the caller writes through the result is the entity's actor
    /// from then on; nothing else in the world changes.
    pub fn get_actor_mut(&mut self, e: EntityId) -> (r: Option<&mut Actor>)
        requires
            old(self).wf(),
        ensures
            match r {
                Some(a) => {
                    &&& actor_in(old(self)@, e) == Some(*a)
                    &&& final(self)@ == old(self)@.update(
                        e.0 as int,
                        EntityView { actor: Some(*final(a)), ..entity(old(self)@, e) },
                    )
                    &&& final(self).wf()
                },
                None => actor_in(old(self)@, e) is None && final(self)@ == old(self)@
                    && final(self).wf(),
            },
    {
        if e.0 < self.slots.len() {
            proof {
                old(self).lemma_actor_change(e);
            }
            self.slots[e.0].actor.as_mut()
        } else {
            None
        }
    }

    /// Changing an actor component leaves a sound world sound.
    proof fn lemma_actor_change(&self, e: EntityId)
        requires
            self.wf(),
            live(self@, e),
        ensures
            forall|other: World|
                other.depth@ == self.depth@ && #[trigger] other@ == self@.update(
                    e.0 as int,
                    EntityView { actor: entity(other@, e).actor, ..entity(self@, e) },
                ) ==> other.wf(),
    {
        assert forall|other: World|
            other.depth@ == self.depth@ && #[trigger] other@ == self@.update(
                e.0 as int,
                EntityView { actor: entity(other@, e).actor, ..entity(self@, e) },
            ) implies other.wf() by {
            self.lemma_same_edges(&other);
        }
    }

    /// The organ component attached to `e`, if any.
    pub fn get_organ(&self, e: EntityId) -> (r: Option<Organ>)
        ensures
            r == organ_in(self@, e),
    {
        if e.0 < self.slots.len() {
            self.slots[e.0].organ
        } else {
            None
        }
    }

    /// The player component attached to `e`, if any.
    pub fn get_player(&self, e: EntityId) -> (r: Option<Player>)
        ensures
            r == player_in(self@, e),
    {
        if e.0 < self.slots.len() {
            self.slots[e.0].player
        } else {
            None
        }
    }

    /// The behaviour attached to `e`, if any.
    pub fn get_ai_behavior(&self, e: EntityId) -> (r: Option<AiBehavior>)
        ensures
            r == ai_in(self@, e),
    {
        if e.0 < self.slots.len() {
            self.slots[e.0].ai
        } else {
            None
        }
    }

    /// The room marker attached to `e`, if any.
    pub fn get_room(&self, e: EntityId) -> (r: Option<GameRoom>)
        ensures
            r == room_in(self@, e),
    {
        if e.0 < self.slots.len() {
            self.slots[e.0].room
        } else {
            None
        }
    }

    /// The entity that contains `e`, if any.
    pub fn parent_of(&self, e: EntityId) -> (r: Option<EntityId>)
        ensures
            r == parent_in(self@, e),
    {
        if e.0 < self.slots.len() {
            self.slots[e.0].parent
        } else {
            None
        }
    }

    /// The entities that `e` contains directly, oldest first.
    pub fn children_of(&self, e: EntityId) -> (r: Vec<EntityId>)
        ensures
            r@ == children_in(self@, e),
    {
        let mut r: Vec<EntityId> = Vec::new();
        if e.0 < self.slots.len() {
            let kids = &self.slots[e.0].children;
            let mut i: usize = 0;
            while i < kids.len()
                invariant
                    i <= kids@.len(),
                    r@ == kids@.take(i as int),
                decreases kids@.len() - i,
            {
                r.push(kids[i]);
                i = i + 1;
            }
            assert(kids@.take(kids@.len() as int) =~= kids@);
        }
        r
    }

    /// Moves `child` into `parent`.
    ///
    /// The edge to the former container of `child`, if there was one, goes
    /// and the new one comes in the same step: no caller sees `child` with
    /// two containers or between two. The move is refused, and nothing
    /// changes, if either name is unknown or if `parent` is `child` itself
    /// or lies within it, which would close a cycle.
    pub fn set_parent(&mut self, child: EntityId, parent: EntityId) -> (r: Result<(), WorldError>)
        requires
            old(self).wf(),
        ensures
            final(self).wf(),
            final(self)@.len() == old(self)@.len(),
            match r {
                Ok(_) => {
                    &&& live(old(self)@, child)
                    &&& live(old(self)@, parent)
                    &&& !within(old(self)@, parent, child)
                    &&& final(self)@ == reparented(old(self)@, child, parent)
                    &&& parent_in(final(self)@, child) == Some(parent)
                },
                Err(WorldError::NoSuchEntity) => {
                    &&& !(live(old(self)@, child) && live(old(self)@, parent))
                    &&& final(self)@ == old(self)@
                },
                Err(WorldError::Cycle) => {
                    &&& live(old(self)@, child)
                    &&& live(old(self)@, parent)
                    &&& within(old(self)@, parent, child)
                    &&& final(self)@ == old(self)@
                },
            },
    {
        let n = self.slots.len();
        if child.0 >= n || parent.0 >= n {
            return Err(WorldError::NoSuchEntity);
        }
        let ghost s = self@;
        let ghost depth = self.depth@;
        let mut cur = parent;
        let ghost mut k: nat = 0;
        loop
            invariant
                linked(s),
                ranked_by(s, depth),
                self@ == s,
                self.depth@ == depth,
                *self == *old(self),
                live(s, cur),
                live(s, child),
                live(s, parent),
                ancestor(s, parent, k) == Some(cur),
                forall|j: nat| j < k ==> ancestor(s, parent, j) != Some(child),
            ensures
                cur != child,
                parent_in(s, cur) is None,
            decreases depth[cur.0 as int],
        {
            if cur.0 == child.0 {
                return Err(WorldError::Cycle);
            }
            match self.slots[cur.0].parent {
                None => {
                    break ;
                },
                Some(p) => {
                    proof {
                        assert(is_parent(s, cur, p));
                        assert(holds(s, p, cur));
                        lemma_ancestor_step(s, parent, k);
                        k = k + 1;
                    }
                    cur = p;
                },
            }
        }
        proof {
            assert forall|m: nat| ancestor(s, parent, m) != Some(child) by {
                if m > k {
                    lemma_ancestor_step(s, parent, k);
                    lemma_ancestor_ended(s, parent, k + 1, m);
                }
            }
            assert(!within(s, parent, child));
            assert(ancestor(s, parent, 0) == Some(parent));
        }
        match self.slots[child.0].parent {
            Some(q) => {
                proof {
                    assert(is_parent(s, child, q));
                    assert(holds(s, q, child));
                }
                let mut i: usize = 0;
                while i < self.slots[q.0].children.len() && self.slots[q.0].children[i].0
                    != child.0
                    invariant
                        *self == *old(self),
                        q.0 < self.slots@.len(),
                        i <= self.slots@[q.0 as int].children@.len(),
                        forall|j: int| 0 <= j < i ==> self.slots@[q.0 as int].children@[j] != child,
                    decreases self.slots@[q.0 as int].children@.len() - i,
                {
                    i = i + 1;
                }
                proof {
                    let kids = entity(s, q).children;
                    assert(kids == self.slots@[q.0 as int].children@);
                    let at = kids.index_of(child);
                    assert(0 <= at < kids.len() && kids[at] == child);
                    assert(i < kids.len());
                    assert(kids[i as int] == child);
                    assert(i == at);
                }
                self.slots[q.0].children.remove(i);
            },
            None => {},
        }
        self.slots[parent.0].children.push(child);
        self.slots[child.0].parent = Some(parent);
        proof {
            self.depth@ = deepened(s, depth, child, parent);
            let t = reparented(s, child, parent);
            assert(self@.len() == t.len());
            assert forall|i: int| 0 <= i < t.len() implies self@[i] == t[i] by {
                assert(self@[i].children =~= t[i].children);
            }
            assert(self@ =~= t);
            lemma_reparented_linked(s, child, parent);
            lemma_reparented_ranked(s, depth, child, parent);
            assert(is_parent(t, child, parent));
        }
        Ok(())
    }

    /// The entities of a world can be counted in a `usize`.
    pub proof fn lemma_countable(&self)
        ensures
            self@.len() <= usize::MAX,
    {
        assert(self@.len() == self.slots.len());
    }

    /// Containment in a sound world is a forest: following containment
    /// edges down from an entity never leads back to it.
    pub proof fn lemma_forest(&self)
        requires
            self.wf(),
        ensures
            forest(self@),
    {
        let s = self@;
        assert forall|e: EntityId, n: nat| n >= 1 implies !#[trigger] reaches(s, e, e, n) by {
            if reaches(s, e, e, n) {
                lemma_reaches_ancestor(s, e, e, n);
                lemma_ancestor_deeper(s, self.depth@, e, n);
            }
        }
    }

    /// No entity of a sound world is its own ancestor.
    pub proof fn lemma_no_cycle(&self, e: EntityId, n: nat)
        requires
            self.wf(),
            n >= 1,
        ensures
            ancestor(self@, e, n) != Some(e),
    {
        if ancestor(self@, e, n) == Some(e) {
            lemma_ancestor_deeper(self@, self.depth@, e, n);
        }
    }

    /// An entity of a sound world is listed by at most one container, the
    /// one that it names, and only once.
    pub proof fn lemma_one_container(&self, p: EntityId, q: EntityId, c: EntityId)
        requires
            self.wf(),
            holds(self@, p, c),
            holds(self@, q, c),
        ensures
            p == q,
            parent_in(self@, c) == Some(p),
            entity(self@, p).children.no_duplicates(),
    {
        assert(is_parent(self@, c, p));
        assert(is_parent(self@, c, q));
    }
}

} // verus!
