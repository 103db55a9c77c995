use vstd::prelude::*;

use indexmap::IndexMap;

use crate::entity::{Entity, EntityType, Player, Report, Vec2Bits};
use crate::events::{ServerEvent, UserMessage};
use crate::grid::{lemma_push_fresh, lemma_swap_removed, swap_removed, GridPos, PlayerPositions, ROW, TILES};
use crate::ids::{Id, IdCounter};
use crate::stats::MAX_LEVEL;

verus! {

#[verifier::external_type_specification]
#[verifier::external_body]
#[verifier::reject_recursive_types(K)]
#[verifier::reject_recursive_types(V)]
#[verifier::reject_recursive_types(S)]
pub struct ExIndexMap<K, V, S>(IndexMap<K, V, S>);

/// A hub's entities, by id, in order of insertion.
pub type EntityMap = IndexMap<u32, Entity>;

/// The entities that a hub's map holds, by id.
pub uninterp spec fn entity_map(m: EntityMap) -> Map<u32, Entity>;

/// The keys of a hub's map, in the map's order.
pub uninterp spec fn entity_keys(m: EntityMap) -> Seq<u32>;

/// Relies on `IndexMap::new`: a new map is empty.
#[verifier::external_body]
fn map_new() -> (r: EntityMap)
    ensures
        entity_map(r).dom() == Set::<u32>::empty(),
        entity_keys(r) == Seq::<u32>::empty(),
{
    IndexMap::new()
}

/// Relies on `IndexMap::insert`: afterwards the key maps to the value; a key
/// already present keeps its place in the order, a new one comes last.
#[verifier::external_body]
fn map_insert(m: &mut EntityMap, id: u32, e: Entity)
    ensures
        entity_map(*final(m)) == entity_map(*old(m)).insert(id, e),
        entity_map(*old(m)).contains_key(id) ==> entity_keys(*final(m)) == entity_keys(*old(m)),
        !entity_map(*old(m)).contains_key(id) ==> entity_keys(*final(m)) == entity_keys(
            *old(m),
        ).push(id),
{
    m.insert(id, e);
}

/// Relies on `IndexMap::swap_remove`: the key is gone afterwards, the last
/// key taking its place in the order, and its value, if it had one, is
/// returned.
#[verifier::external_body]
fn map_swap_remove(m: &mut EntityMap, id: u32) -> (r: Option<Entity>)
    ensures
        entity_map(*final(m)) == entity_map(*old(m)).remove(id),
        entity_map(*old(m)).contains_key(id) ==> entity_keys(*final(m)) == swap_removed(
            entity_keys(*old(m)),
            id,
        ),
        !entity_map(*old(m)).contains_key(id) ==> entity_keys(*final(m)) == entity_keys(*old(m)),
        entity_map(*old(m)).contains_key(id) ==> r == Some(entity_map(*old(m))[id]),
        !entity_map(*old(m)).contains_key(id) ==> r is None,
{
    m.swap_remove(&id)
}

/// Relies on `IndexMap::get`: the value of the key, if it has one.
#[verifier::external_body]
fn map_get(m: &EntityMap, id: u32) -> (r: Option<Entity>)
    ensures
        entity_map(*m).contains_key(id) ==> r == Some(entity_map(*m)[id]),
        !entity_map(*m).contains_key(id) ==> r is None,
{
    m.get(&id).copied()
}

/// Relies on `IndexMap::keys`: it yields the keys in the map's order.
#[verifier::external_body]
fn map_keys(m: &EntityMap) -> (r: Vec<u32>)
    ensures
        r@ == entity_keys(*m),
{
    m.keys().copied().collect()
}

/// The id that an entity-creation event names, if it is one.
pub open spec fn created_id(e: ServerEvent) -> Option<Id> {
    match e {
        ServerEvent::EntityCreate { id, .. } => Some(id),
        _ => None,
    }
}

/// The id that an entity-deletion event names, if it is one.
pub open spec fn deleted_id(e: ServerEvent) -> Option<Id> {
    match e {
        ServerEvent::EntityDelete { id } => Some(id),
        _ => None,
    }
}

/// The id that a position event names, if it is one.
pub open spec fn position_id(e: ServerEvent) -> Option<Id> {
    match e {
        ServerEvent::Position { user, .. } => Some(user),
        _ => None,
    }
}

/// After the events of `log`, `id` was created and not deleted since.
pub open spec fn live(log: Seq<ServerEvent>, id: Id) -> bool
    decreases log.len(),
{
    if log.len() == 0 {
        false
    } else if created_id(log.last()) == Some(id) {
        true
    } else if deleted_id(log.last()) == Some(id) {
        false
    } else {
        live(log.drop_last(), id)
    }
}

/// Every position event of `log` names an id created earlier and not
/// deleted in between.
pub open spec fn positions_follow_creation(log: Seq<ServerEvent>) -> bool {
    forall|k: int|
        0 <= k < log.len() && (#[trigger] position_id(log[k])) is Some ==> live(
            log.take(k),
            position_id(log[k])->0,
        )
}

proof fn lemma_live_push(log: Seq<ServerEvent>, e: ServerEvent, id: Id)
    ensures
        live(log.push(e), id) == if created_id(e) == Some(id) {
            true
        } else if deleted_id(e) == Some(id) {
            false
        } else {
            live(log, id)
        },
{
    assert(log.push(e).drop_last() =~= log);
}

proof fn lemma_positions_push(log: Seq<ServerEvent>, e: ServerEvent)
    requires
        positions_follow_creation(log),
        position_id(e) matches Some(u) ==> live(log, u),
    ensures
        positions_follow_creation(log.push(e)),
{
    let l2 = log.push(e);
    assert forall|k: int|
        0 <= k < l2.len() && (#[trigger] position_id(l2[k])) is Some implies live(
            l2.take(k),
            position_id(l2[k])->0,
        ) by {
        assert(l2.take(k) =~= log.take(k));
        if k < log.len() {
            assert(l2[k] == log[k]);
        } else {
            assert(log.take(k) =~= log);
        }
    }
}

/// Pairs `(a, b)` for each `b` of `tile`, in order, other than `a` itself.
pub open spec fn pairs_with(a: Id, tile: Seq<Id>) -> Seq<(Id, Id)>
    decreases tile.len(),
{
    if tile.len() == 0 {
        Seq::empty()
    } else {
        let rest = pairs_with(a, tile.drop_last());
        if tile.last() != a {
            rest.push((a, tile.last()))
        } else {
            rest
        }
    }
}

/// One authoritative world: its entities by id, the spatial grid over them,
/// the id counter and the events queued for the next batch.
pub struct Hub {
    entities: EntityMap,
    tiles: PlayerPositions,
    ids: IdCounter,
    queued_events: Vec<ServerEvent>,
    /// Every event the hub has queued, batches already handed out included.
    log: Ghost<Seq<ServerEvent>>,
    /// How many events of `log` were handed out.
    sent: Ghost<int>,
}

impl Hub {
    pub closed spec fn model(&self) -> Map<Id, Entity> {
        entity_map(self.entities)
    }

    /// The ids of the entities, in the map's order.
    pub closed spec fn order(&self) -> Seq<Id> {
        entity_keys(self.entities)
    }

    pub closed spec fn grid(&self) -> PlayerPositions {
        self.tiles
    }

    /// The last id handed out; `0` before the first.
    pub closed spec fn last_id(&self) -> Id {
        self.ids.0
    }

    pub closed spec fn queued(&self) -> Seq<ServerEvent> {
        self.queued_events@
    }

    pub closed spec fn log(&self) -> Seq<ServerEvent> {
        self.log@
    }

    /// The tile that entity `id` falls in, if any.
    pub open spec fn tile_of(&self, id: Id) -> Option<int> {
        self.grid().spec_index(self.model()[id].cell)
    }

    /// Every id in the map was handed out by the counter.
    pub open spec fn ids_issued(&self) -> bool {
        forall|k: Id| #[trigger] self.model().contains_key(k) ==> 0 < k <= self.last_id()
    }

    /// A tile holds exactly the ids of the entities that fall in it.
    pub open spec fn grid_consistent(&self) -> bool {
        forall|i: int, k: Id|
            0 <= i < TILES ==> (#[trigger] self.grid().cells()[i].contains(k) <==> (
            self.model().contains_key(k) && self.tile_of(k) == Some(i)))
    }

    /// The live entities are exactly those whose creation was announced and
    /// whose deletion was not, and position events only name live entities.
    pub open spec fn log_consistent(&self) -> bool {
        &&& forall|k: Id| #[trigger] self.model().contains_key(k) <==> live(self.log(), k)
        &&& positions_follow_creation(self.log())
    }

    pub closed spec fn wf(&self) -> bool {
        &&& self.tiles.wf()
        &&& self.ids_issued()
        &&& self.grid_consistent()
        &&& self.log_consistent()
        &&& forall|k: Id| #[trigger] self.model().contains_key(k) ==> self.model()[k].wf()
        &&& self.order().no_duplicates()
        &&& self.order().to_set() == self.model().dom()
        &&& 0 <= self.sent@ <= self.log@.len()
        &&& self.queued_events@ == self.log@.subrange(self.sent@, self.log@.len() as int)
    }

    /// An empty world over an arena whose extent truncates to `map_size`.
    pub fn new(map_size: usize) -> (r: Hub)
        requires
            map_size >= ROW,
        ensures
            r.wf(),
            r.model() == Map::<Id, Entity>::empty(),
            r.last_id() == 0,
            r.queued() == Seq::<ServerEvent>::empty(),
            r.log() == Seq::<ServerEvent>::empty(),
            r.grid().spec_scale() == map_size as int / ROW as int,
            r.grid().cells() == Seq::new(TILES as nat, |i: int| Set::<Id>::empty()),
            r.grid().orders() == Seq::new(TILES as nat, |i: int| Seq::<Id>::empty()),
    {
        let r = Hub {
            entities: map_new(),
            tiles: PlayerPositions::new(map_size),
            ids: IdCounter::new(),
            queued_events: Vec::new(),
            log: Ghost(Seq::empty()),
            sent: Ghost(0),
        };
        assert(r.queued_events@ =~= r.log@.subrange(0, 0));
        assert(r.order().to_set() =~= r.model().dom());
        r
    }
    /// Queues `e` for the next batch.
    fn push_event(&mut self, e: ServerEvent)
        requires
            0 <= old(self).sent@ <= old(self).log@.len(),
            old(self).queued_events@ == old(self).log@.subrange(
                old(self).sent@,
                old(self).log@.len() as int,
            ),
        ensures
            final(self).log@ == old(self).log@.push(e),
            final(self).queued_events@ == old(self).queued_events@.push(e),
            final(self).sent@ == old(self).sent@,
            final(self).entities == old(self).entities,
            final(self).tiles == old(self).tiles,
            final(self).ids == old(self).ids,
            0 <= final(self).sent@ <= final(self).log@.len(),
            final(self).queued_events@ == final(self).log@.subrange(
                final(self).sent@,
                final(self).log@.len() as int,
            ),
    {
        self.queued_events.push(e);
        self.log = Ghost(self.log@.push(e));
        assert(self.queued_events@ =~= self.log@.subrange(self.sent@, self.log@.len() as int));
    }

    /// Adds `entity` under a fresh id, puts it in the grid and announces its
    /// creation. Returns the new id.
    pub fn spawn_entity(&mut self, entity: Entity) -> (r: Id)
        requires
            old(self).wf(),
            entity.wf(),
            old(self).last_id() < Id::MAX,
        ensures
            final(self).wf(),
            final(self).grid().spec_scale() == old(self).grid().spec_scale(),
            r == old(self).last_id() + 1,
            final(self).last_id() == r,
            !old(self).model().contains_key(r),
            final(self).order() == old(self).order().push(r),
            final(self).model() == old(self).model().insert(r, entity),
            final(self).log() == old(self).log().push(
                ServerEvent::EntityCreate { id: r, tank: entity.tank, position: entity.coordinates },
            ),
            final(self).queued() == old(self).queued().push(
                ServerEvent::EntityCreate { id: r, tank: entity.tank, position: entity.coordinates },
            ),
    {
        proof {
            self.tiles.lemma_cells_len();
        }
        let id = self.ids.next();
        self.tiles.add(&entity.cell, id);
        proof {
            self.tiles.lemma_cells_len();
        }
        let e = ServerEvent::EntityCreate { id, tank: entity.tank, position: entity.coordinates };
        proof {
            assert(!old(self).model().contains_key(id));
            assert forall|k: Id| #[trigger] live(self.log@.push(e), k) == live(self.log@, k) || k == id by {
                lemma_live_push(self.log@, e, k);
            }
            lemma_live_push(self.log@, e, id);
            lemma_positions_push(self.log@, e);
        }
        self.push_event(e);
        proof {
            assert(!self.order().to_set().contains(id));
            lemma_push_fresh(self.order(), id);
        }
        map_insert(&mut self.entities, id, entity);
        assert(self.order().to_set() =~= self.model().dom());
        proof {
            assert forall|i: int, k: Id| 0 <= i < TILES implies (
            #[trigger] self.grid().cells()[i].contains(k) <==> (self.model().contains_key(k)
                && self.tile_of(k) == Some(i))) by {
                if k != id {
                    assert(old(self).grid().cells()[i].contains(k) <==> self.grid().cells()[i].contains(k));
                }
            }
            assert forall|k: Id| #[trigger] self.model().contains_key(k) <==> live(self.log(), k) by {
                lemma_live_push(old(self).log(), e, k);
            }
        }
        id
    }

    /// Takes entity `id` out of the map and the grid and announces its
    /// deletion; does nothing where there is no such entity.
    pub fn remove_entity(&mut self, id: Id) -> (r: Option<Entity>)
        requires
            old(self).wf(),
        ensures
            final(self).wf(),
            final(self).grid().spec_scale() == old(self).grid().spec_scale(),
            final(self).last_id() == old(self).last_id(),
            forall|i: int| 0 <= i < TILES ==> !(#[trigger] final(self).grid().cells()[i]).contains(id),
            final(self).model() == old(self).model().remove(id),
            old(self).model().contains_key(id) ==> final(self).order() == swap_removed(
                old(self).order(),
                id,
            ),
            !old(self).model().contains_key(id) ==> final(self).order() == old(self).order(),
            old(self).model().contains_key(id) ==> {
                &&& r == Some(old(self).model()[id])
                &&& final(self).log() == old(self).log().push(ServerEvent::EntityDelete { id })
                &&& final(self).queued() == old(self).queued().push(
                    ServerEvent::EntityDelete { id },
                )
            },
            !old(self).model().contains_key(id) ==> {
                &&& r is None
                &&& final(self).log() == old(self).log()
                &&& final(self).queued() == old(self).queued()
            },
    {
        proof {
            if self.model().contains_key(id) {
                assert(self.order().to_set().contains(id));
                lemma_swap_removed(self.order(), id);
            }
        }
        let removed = map_swap_remove(&mut self.entities, id);
        assert(self.order().to_set() =~= self.model().dom());
        match removed {
            Some(entity) => {
                proof {
                    self.tiles.lemma_cells_len();
                }
                self.tiles.remove(&entity.cell, id);
                proof {
                    self.tiles.lemma_cells_len();
                }
                let e = ServerEvent::EntityDelete { id };
                proof {
                    lemma_positions_push(self.log@, e);
                }
                self.push_event(e);
                proof {
                    assert forall|i: int, k: Id| 0 <= i < TILES implies (
                    #[trigger] self.grid().cells()[i].contains(k) <==> (self.model().contains_key(k)
                        && self.tile_of(k) == Some(i))) by {
                        if k != id {
                            assert(old(self).grid().cells()[i].contains(k) <==> self.grid().cells()[i].contains(k));
                        }
                    }
                    assert forall|k: Id| #[trigger] self.model().contains_key(k) <==> live(self.log(), k) by {
                        lemma_live_push(old(self).log(), e, k);
                    }
                }
                Some(entity)
            },
            None => {
                assert(self.model() =~= old(self).model().remove(id));
                None
            },
        }
    }
    /// Whether another id can be handed out.
    pub fn can_spawn(&self) -> (r: bool)
        ensures
            r == (self.last_id() < Id::MAX),
    {
        self.ids.0 < Id::MAX
    }

    /// A copy of entity `id`, if there is one.
    pub fn get(&self, id: Id) -> (r: Option<Entity>)
        ensures
            self.model().contains_key(id) ==> r == Some(self.model()[id]),
            !self.model().contains_key(id) ==> r is None,
    {
        map_get(&self.entities, id)
    }

    /// The ids of all entities, each once, in the map's order.
    pub fn ids(&self) -> (r: Vec<Id>)
        requires
            self.wf(),
        ensures
            r@ == self.order(),
            r@.to_set() == self.model().dom(),
            r@.no_duplicates(),
    {
        map_keys(&self.entities)
    }

    /// The ids in the tile that `cell` falls in, each once; `None` where it
    /// falls in no tile.
    pub fn tile_ids(&self, cell: &GridPos) -> (r: Option<Vec<Id>>)
        requires
            self.wf(),
        ensures
            match self.grid().spec_index(*cell) {
                Some(i) => r matches Some(v) && v@ == self.grid().orders()[i] && v@.to_set()
                    == self.grid().cells()[i] && v@.no_duplicates(),
                None => r is None,
            },
    {
        self.tiles.ids_at(cell)
    }

    /// Pair `(a, b)` is to be tested for a collision: `b` is another entity
    /// in the tile that entity `a` falls in.
    pub open spec fn candidate(&self, a: Id, b: Id) -> bool {
        &&& self.model().contains_key(a)
        &&& a != b
        &&& self.tile_of(a) matches Some(i) && self.grid().cells()[i].contains(b)
    }

    /// The candidate pairs of the entities `keys`, in order: for each, the
    /// other ids of its tile in the tile's order.
    pub open spec fn candidate_pairs(&self, keys: Seq<Id>) -> Seq<(Id, Id)>
        decreases keys.len(),
    {
        if keys.len() == 0 {
            Seq::empty()
        } else {
            let a = keys.last();
            self.candidate_pairs(keys.drop_last()) + match self.tile_of(a) {
                Some(i) => pairs_with(a, self.grid().orders()[i]),
                None => Seq::empty(),
            }
        }
    }

    /// Every pair of entities sharing a tile, each ordered pair once: for
    /// each entity, in the map's order, the other ids of its tile, in the
    /// tile's order. With `(a, b)` the list holds `(b, a)`.
    pub fn collision_candidates(&self) -> (r: Vec<(Id, Id)>)
        requires
            self.wf(),
        ensures
            r@ == self.candidate_pairs(self.order()),
            forall|a: Id, b: Id| #[trigger] r@.contains((a, b)) <==> self.candidate(a, b),
            forall|a: Id, b: Id| #[trigger] r@.contains((a, b)) ==> r@.contains((b, a)),
            r@.no_duplicates(),
    {
        let ids = self.ids();
        let mut r: Vec<(Id, Id)> = Vec::new();
        let mut n: usize = 0;
        while n < ids.len()
            invariant
                self.wf(),
                n <= ids@.len(),
                ids@.to_set() == self.model().dom(),
                ids@.no_duplicates(),
                r@.no_duplicates(),
                forall|a: Id, b: Id| #[trigger] r@.contains((a, b)) <==> (self.candidate(a, b)
                    && exists|k: int| 0 <= k < n && ids@[k] == a),
                ids@ == self.order(),
                r@ == self.candidate_pairs(ids@.subrange(0, n as int)),
            decreases ids.len() - n,
        {
            assert(ids@.subrange(0, n + 1).drop_last() =~= ids@.subrange(0, n as int));
            let a = ids[n];
            assert(ids@.to_set().contains(a));
            let e = match self.get(a) {
                Some(e) => e,
                None => {
                    n = n + 1;
                    continue;
                },
            };
            let tile = match self.tile_ids(&e.cell) {
                Some(t) => t,
                None => {
                    proof {
                        assert forall|a2: Id, b: Id| #[trigger] r@.contains((a2, b)) <==> (self.candidate(a2, b)
                            && exists|k: int| 0 <= k < n + 1 && ids@[k] == a2) by {
                            if self.candidate(a2, b) && a2 == a {
                                assert(false);
                            }
                            if exists|k: int| 0 <= k < n + 1 && ids@[k] == a2 {
                                let k = choose|k: int| 0 <= k < n + 1 && ids@[k] == a2;
                                if k < n {
                                    assert(exists|k: int| 0 <= k < n && ids@[k] == a2);
                                }
                            }
                        }
                    }
                    proof {
                        assert(ids@.subrange(0, n + 1).last() == a);
                        assert(r@ =~= r@ + Seq::<(Id, Id)>::empty());
                    }
                    n = n + 1;
                    continue;
                },
            };
            let ghost r0 = r@;
            proof {
                lemma_grid_consistent(self);
            }
            let mut m: usize = 0;
            while m < tile.len()
                invariant
                    self.wf(),
                    n < ids@.len(),
                    a == ids@[n as int],
                    self.model().contains_key(a),
                    self.tile_of(a) is Some,
                    tile@.to_set() == self.grid().cells()[self.tile_of(a)->0],
                    tile@.no_duplicates(),
                    m <= tile@.len(),
                    r0.no_duplicates(),
                    forall|x: Id, y: Id| #[trigger] r0.contains((x, y)) ==> x != a,
                    r@.no_duplicates(),
                    forall|x: Id, y: Id| #[trigger] r@.contains((x, y)) <==> (r0.contains((x, y)) || (x == a
                        && y != a && exists|j: int| 0 <= j < m && tile@[j] == y)),
                    tile@ == self.grid().orders()[self.tile_of(a)->0],
                    r@ == r0 + pairs_with(a, tile@.subrange(0, m as int)),
                decreases tile.len() - m,
            {
                assert(tile@.subrange(0, m + 1).drop_last() =~= tile@.subrange(0, m as int));
                let b = tile[m];
                let ghost rb = r@;
                if b != a {
                    proof {
                        assert(!r@.contains((a, b))) by {
                            if r@.contains((a, b)) {
                                assert(!r0.contains((a, b)));
                                let j = choose|j: int| 0 <= j < m && tile@[j] == b;
                                assert(tile@[j] == tile@[m as int]);
                            }
                        }
                    }
                    r.push((a, b));
                }
                proof {
                    assert forall|x: Id, y: Id| #[trigger] r@.contains((x, y)) <==> (rb.contains((x, y)) || (
                    b != a && x == a && y == b)) by {
                        if r@.contains((x, y)) {
                            let i = choose|i: int| 0 <= i < r@.len() && r@[i] == (x, y);
                            if i < rb.len() {
                                assert(rb[i] == (x, y));
                            }
                        }
                        if rb.contains((x, y)) {
                            let i = choose|i: int| 0 <= i < rb.len() && rb[i] == (x, y);
                            assert(r@[i] == (x, y));
                        }
                        if b != a && x == a && y == b {
                            assert(r@[r@.len() - 1] == (x, y));
                        }
                    }
                    assert forall|x: Id, y: Id| #[trigger] r@.contains((x, y)) <==> (r0.contains((x, y)) || (x == a
                        && y != a && exists|j: int| 0 <= j < m + 1 && tile@[j] == y)) by {
                        if x == a && y != a && exists|j: int| 0 <= j < m + 1 && tile@[j] == y {
                            let j = choose|j: int| 0 <= j < m + 1 && tile@[j] == y;
                            if j < m {
                                assert(exists|j: int| 0 <= j < m && tile@[j] == y);
                                assert(rb.contains((x, y)));
                            }
                        }
                        if rb.contains((x, y)) && !r0.contains((x, y)) {
                            let j = choose|j: int| 0 <= j < m && tile@[j] == y;
                            assert(0 <= j < m + 1 && tile@[j] == y);
                        }
                        if b != a && x == a && y == b {
                            assert(tile@[m as int] == y);
                        }
                    }
                    assert(r@ =~= r0 + pairs_with(a, tile@.subrange(0, m + 1)));
                }
                m = m + 1;
            }
            proof {
                assert forall|a2: Id, b: Id| #[trigger] r@.contains((a2, b)) <==> (self.candidate(a2, b)
                    && exists|k: int| 0 <= k < n + 1 && ids@[k] == a2) by {
                    if a2 == a {
                        if self.candidate(a2, b) {
                            assert(tile@.to_set().contains(b));
                            let j = choose|j: int| 0 <= j < tile@.len() && tile@[j] == b;
                        }
                        assert(!r0.contains((a2, b)));
                    } else {
                        if exists|k: int| 0 <= k < n + 1 && ids@[k] == a2 {
                            let k = choose|k: int| 0 <= k < n + 1 && ids@[k] == a2;
                            if k < n {
                                assert(exists|k: int| 0 <= k < n && ids@[k] == a2);
                            }
                        }
                    }
                }
            }
            proof {
                assert(tile@.subrange(0, tile@.len() as int) =~= tile@);
                assert(ids@.subrange(0, n + 1).last() == a);
            }
            n = n + 1;
        }
        proof {
            assert(ids@.subrange(0, ids@.len() as int) =~= ids@);
            assert forall|a: Id, b: Id| #[trigger] r@.contains((a, b)) <==> self.candidate(a, b) by {
                if self.candidate(a, b) {
                    assert(ids@.to_set().contains(a));
                    let k = choose|k: int| 0 <= k < ids@.len() && ids@[k] == a;
                }
            }
            lemma_grid_consistent(self);
            assert forall|a: Id, b: Id| #[trigger] r@.contains((a, b)) implies r@.contains((b, a)) by {
                let i = self.tile_of(a)->0;
                assert(self.grid().cells()[i].contains(b));
                assert(self.grid().cells()[i].contains(a));
                assert(self.candidate(b, a));
            }
        }
        r
    }

    /// The events queued since the last call, in order; the queue is left
    /// empty.
    pub fn take_events(&mut self) -> (r: Vec<ServerEvent>)
        requires
            old(self).wf(),
        ensures
            final(self).wf(),
            final(self).grid().spec_scale() == old(self).grid().spec_scale(),
            r@ == old(self).queued(),
            final(self).queued() == Seq::<ServerEvent>::empty(),
            final(self).model() == old(self).model(),
            final(self).log() == old(self).log(),
            final(self).last_id() == old(self).last_id(),
    {
        let mut r: Vec<ServerEvent> = Vec::new();
        std::mem::swap(&mut r, &mut self.queued_events);
        self.sent = Ghost(self.log@.len() as int);
        assert(self.queued_events@ =~= self.log@.subrange(self.sent@, self.log@.len() as int));
        r
    }

    /// Records the motion of entity `id` for this tick: its new coordinates
    /// (falling in `cell`) and velocity. The entity changes tile when the
    /// tile that its position falls in changed. A position event is queued
    /// when the coordinates, yaw or velocity differ from those of the last
    /// tick (for a prop: when the coordinates changed), and the new values
    /// become the ones the next tick compares with. Returns whether there was
    /// such an entity; where there was none, nothing changes.
    pub fn update_entity(&mut self, id: Id, coordinates: Vec2Bits, cell: GridPos, velocity: Vec2Bits) -> (r: bool)
        requires
            old(self).wf(),
        ensures
            final(self).wf(),
            final(self).grid().spec_scale() == old(self).grid().spec_scale(),
            final(self).last_id() == old(self).last_id(),
            r == old(self).model().contains_key(id),
            !r ==> final(self).model() == old(self).model() && final(self).log() == old(self).log()
                && final(self).queued() == old(self).queued(),
            r ==> {
                let e = old(self).model()[id];
                let now = Report { coordinates, yaw: e.yaw, velocity };
                let reported = if e.inner is Prop {
                    coordinates != e.coordinates
                } else {
                    now != e.reported
                };
                let p = ServerEvent::Position { user: id, coordinates, yaw: e.yaw, velocity };
                &&& final(self).model() == old(self).model().insert(
                    id,
                    Entity { coordinates, cell, velocity, reported: now, ..e },
                )
                &&& reported ==> final(self).log() == old(self).log().push(p)
                    && final(self).queued() == old(self).queued().push(p)
                &&& !reported ==> final(self).log() == old(self).log() && final(self).queued()
                    == old(self).queued()
            },
    {
        let found = map_get(&self.entities, id);
        let e = match found {
            Some(e) => e,
            None => return false,
        };
        let now = Report { coordinates, yaw: e.yaw, velocity };
        let moved = Entity { coordinates, cell, velocity, reported: now, ..e };
        proof {
            self.tiles.lemma_cells_len();
        }
        let from = self.tiles.index(&e.cell);
        let to = self.tiles.index(&cell);
        let same = match (from, to) {
            (Some(a), Some(b)) => a == b,
            (None, None) => true,
            _ => false,
        };
        if !same {
            self.tiles.remove(&e.cell, id);
            self.tiles.add(&cell, id);
        }
        map_insert(&mut self.entities, id, moved);
        proof {
            self.tiles.lemma_cells_len();
            assert forall|i: int, k: Id| 0 <= i < TILES implies (
            #[trigger] self.grid().cells()[i].contains(k) <==> (self.model().contains_key(k)
                && self.tile_of(k) == Some(i))) by {
                if k != id {
                    assert(old(self).grid().cells()[i].contains(k) <==> self.grid().cells()[i].contains(k));
                }
            }
            assert(self.model().dom() =~= old(self).model().dom());
        }
        let changed = match e.inner {
            EntityType::Prop => coordinates.x != e.coordinates.x || coordinates.y != e.coordinates.y,
            _ => coordinates.x != e.reported.coordinates.x || coordinates.y
                != e.reported.coordinates.y || e.yaw.0 != e.reported.yaw.0 || velocity.x
                != e.reported.velocity.x || velocity.y != e.reported.velocity.y,
        };
        if changed {
            let p = ServerEvent::Position { user: id, coordinates, yaw: e.yaw, velocity };
            proof {
                lemma_positions_push(self.log@, p);
            }
            self.push_event(p);
            proof {
                assert forall|k: Id| #[trigger] self.model().contains_key(k) <==> live(self.log(), k) by {
                    lemma_live_push(old(self).log(), p, k);
                }
            }
        }
        true
    }

    /// Sets the health of entity `id` (an `f32` bit pattern). Returns whether
    /// there was such an entity; where there was none, nothing changes.
    pub fn set_health(&mut self, id: Id, health: u32) -> (r: bool)
        requires
            old(self).wf(),
        ensures
            final(self).wf(),
            final(self).grid().spec_scale() == old(self).grid().spec_scale(),
            final(self).last_id() == old(self).last_id(),
            final(self).log() == old(self).log(),
            final(self).queued() == old(self).queued(),
            r == old(self).model().contains_key(id),
            r ==> final(self).model() == old(self).model().insert(
                id,
                Entity { health, ..old(self).model()[id] },
            ),
            !r ==> final(self).model() == old(self).model(),
    {
        match map_get(&self.entities, id) {
            Some(e) => {
                map_insert(&mut self.entities, id, Entity { health, ..e });
                assert(self.model().dom() =~= old(self).model().dom());
                true
            },
            None => false,
        }
    }

    /// Routes a client's message: an event goes to the entity it names (and
    /// is dropped where there is none); a departure removes the entity.
    pub fn handle_message(&mut self, message: UserMessage)
        requires
            old(self).wf(),
        ensures
            final(self).wf(),
            final(self).grid().spec_scale() == old(self).grid().spec_scale(),
            final(self).last_id() == old(self).last_id(),
            match message {
                UserMessage::Event { event, user } => {
                    &&& final(self).log() == old(self).log()
                    &&& final(self).queued() == old(self).queued()
                    &&& old(self).model().contains_key(user) ==> {
                        &&& final(self).model().dom() == old(self).model().dom()
                        &&& final(self).model() == old(self).model().insert(
                            user,
                            final(self).model()[user],
                        )
                        &&& old(self).model()[user].handled(event, final(self).model()[user])
                    }
                    &&& !old(self).model().contains_key(user) ==> final(self).model() == old(
                        self,
                    ).model()
                },
                UserMessage::GoingAway(id) => {
                    &&& final(self).model() == old(self).model().remove(id)
                    &&& old(self).model().contains_key(id) ==> {
                        &&& final(self).log() == old(self).log().push(
                            ServerEvent::EntityDelete { id },
                        )
                        &&& final(self).queued() == old(self).queued().push(
                            ServerEvent::EntityDelete { id },
                        )
                    }
                    &&& !old(self).model().contains_key(id) ==> {
                        &&& final(self).log() == old(self).log()
                        &&& final(self).queued() == old(self).queued()
                    }
                },
            },
    {
        match message {
            UserMessage::Event { event, user } => {
                match map_get(&self.entities, user) {
                    Some(e) => {
                        let mut e = e;
                        e.handle_event(event);
                        proof {
                            let e0 = old(self).model()[user];
                            assert(e.cell == e0.cell && e.coordinates == e0.coordinates);
                        }
                        map_insert(&mut self.entities, user, e);
                        proof {
                            self.tiles.lemma_cells_len();
                            assert(self.model().dom() =~= old(self).model().dom());
                            assert(self.model() =~= old(self).model().insert(user, e));
                        }
                    },
                    None => {},
                }
            },
            UserMessage::GoingAway(id) => {
                self.remove_entity(id);
            },
        }
    }
    /// Admits a player: a fresh player entity of tank `tank`, at the origin
    /// with no points. Returns its id.
    pub fn spawn_player(&mut self, tank: i32) -> (r: Id)
        requires
            old(self).wf(),
            old(self).last_id() < Id::MAX,
        ensures
            final(self).wf(),
            final(self).grid().spec_scale() == old(self).grid().spec_scale(),
            r == old(self).last_id() + 1,
            !old(self).model().contains_key(r),
            final(self).model() == old(self).model().insert(r, final(self).model()[r]),
            final(self).model()[r].is_new(
                Vec2Bits { x: 0, y: 0 },
                GridPos { x: 0, y: 0 },
                tank,
                EntityType::Player(Player { points: 0, score: 0 }),
            ),
            final(self).log() == old(self).log().push(
                ServerEvent::EntityCreate { id: r, tank, position: Vec2Bits { x: 0, y: 0 } },
            ),
            final(self).queued() == old(self).queued().push(
                ServerEvent::EntityCreate { id: r, tank, position: Vec2Bits { x: 0, y: 0 } },
            ),
    {
        let entity = Entity::new(
            Vec2Bits { x: 0, y: 0 },
            GridPos { x: 0, y: 0 },
            tank,
            EntityType::Player(Player { points: 0, score: 0 }),
        );
        let r = self.spawn_entity(entity);
        assert(self.model() =~= old(self).model().insert(r, self.model()[r]));
        r
    }

    /// Settles one hit on entity `id`: its health becomes `health` (an `f32`
    /// bit pattern), and where `alive` is false it dies. A dying prop is
    /// first replaced by a new prop of the same tank at `respawn` (falling in
    /// `respawn_cell`); then the dead entity is removed. Where there is no
    /// such entity, nothing changes.
    pub fn resolve_hit(
        &mut self,
        id: Id,
        health: u32,
        alive: bool,
        respawn: Vec2Bits,
        respawn_cell: GridPos,
    )
        requires
            old(self).wf(),
            old(self).last_id() < Id::MAX,
        ensures
            final(self).wf(),
            final(self).grid().spec_scale() == old(self).grid().spec_scale(),
            !old(self).model().contains_key(id) ==> {
                &&& final(self).model() == old(self).model()
                &&& final(self).log() == old(self).log()
                &&& final(self).queued() == old(self).queued()
            },
            old(self).model().contains_key(id) && alive ==> {
                &&& final(self).model() == old(self).model().insert(
                    id,
                    Entity { health, ..old(self).model()[id] },
                )
                &&& final(self).log() == old(self).log()
                &&& final(self).queued() == old(self).queued()
            },
            old(self).model().contains_key(id) && !alive && !(old(self).model()[id].inner is Prop)
                ==> {
                &&& final(self).model() == old(self).model().remove(id)
                &&& final(self).log() == old(self).log().push(ServerEvent::EntityDelete { id })
                &&& final(self).queued() == old(self).queued().push(
                    ServerEvent::EntityDelete { id },
                )
            },
            old(self).model().contains_key(id) && !alive && old(self).model()[id].inner is Prop
                ==> {
                let n = (old(self).last_id() + 1) as Id;
                let tank = old(self).model()[id].tank;
                &&& final(self).model() == old(self).model().insert(n, final(self).model()[n]).remove(
                    id,
                )
                &&& final(self).model()[n].is_new(respawn, respawn_cell, tank, EntityType::Prop)
                &&& final(self).log() == old(self).log().push(
                    ServerEvent::EntityCreate { id: n, tank, position: respawn },
                ).push(ServerEvent::EntityDelete { id })
                &&& final(self).queued() == old(self).queued().push(
                    ServerEvent::EntityCreate { id: n, tank, position: respawn },
                ).push(ServerEvent::EntityDelete { id })
            },
    {
        if !self.set_health(id, health) {
            return;
        }
        if alive {
            return;
        }
        let e = match map_get(&self.entities, id) {
            Some(e) => e,
            None => return,
        };
        if let EntityType::Prop = e.inner {
            self.spawn_entity(Entity::new(respawn, respawn_cell, e.tank, EntityType::Prop));
        }
        self.remove_entity(id);
        proof {
            let m0 = old(self).model();
            if m0[id].inner is Prop {
                let n = (old(self).last_id() + 1) as Id;
                assert(self.model() =~= m0.insert(n, self.model()[n]).remove(id));
            } else {
                assert(self.model() =~= m0.remove(id));
            }
        }
    }
}

/// No two entities of a hub share an id, and the id a spawn hands out is
/// held by no entity yet.
pub proof fn lemma_fresh_ids(hub: &Hub)
    requires
        hub.wf(),
    ensures
        forall|k: Id| #[trigger] hub.model().contains_key(k) ==> 0 < k <= hub.last_id(),
        hub.last_id() < Id::MAX ==> !hub.model().contains_key((hub.last_id() + 1) as Id),
        hub.order().no_duplicates(),
        hub.order().to_set() == hub.model().dom(),
{
}

/// A tile holds exactly the ids of the entities that fall in it, each once
/// and in the tile's order.
pub proof fn lemma_grid_consistent(hub: &Hub)
    requires
        hub.wf(),
    ensures
        hub.grid().cells().len() == TILES,
        hub.grid().orders().len() == TILES,
        hub.grid().spec_scale() > 0,
        forall|i: int, k: Id|
            0 <= i < TILES ==> (#[trigger] hub.grid().cells()[i].contains(k) <==> (
            hub.model().contains_key(k) && hub.tile_of(k) == Some(i))),
        forall|i: int|
            0 <= i < TILES ==> #[trigger] hub.grid().cells()[i] == hub.grid().orders()[i].to_set()
                && hub.grid().orders()[i].no_duplicates(),
{
    hub.tiles.lemma_cells_len();
}

/// The tile that an entity's position falls in, when it falls in one, holds
/// its id; a tile holds only ids of entities that fall in it, so no id is in
/// two tiles.
pub proof fn lemma_grid_matches_entities(hub: &Hub)
    requires
        hub.wf(),
    ensures
        forall|k: Id|
            #[trigger] hub.model().contains_key(k) && hub.tile_of(k) is Some ==> hub.grid().cells()[hub.tile_of(
                k,
            )->0].contains(k),
        forall|i: int, j: int, k: Id|
            0 <= i < TILES && 0 <= j < TILES && #[trigger] hub.grid().cells()[i].contains(k)
                && #[trigger] hub.grid().cells()[j].contains(k) ==> i == j,
        forall|i: int, k: Id|
            0 <= i < TILES && #[trigger] hub.grid().cells()[i].contains(k) ==> hub.model().contains_key(k)
                && hub.tile_of(k) == Some(i),
{
    assert forall|k: Id| #[trigger] hub.model().contains_key(k) && hub.tile_of(k) is Some implies hub.grid().cells()[hub.tile_of(
        k,
    )->0].contains(k) by {
        let i = hub.tile_of(k)->0;
        hub.tiles.lemma_cells_len();
        let c = hub.model()[k].cell;
        let sc = hub.grid().spec_scale();
        assert(c.x as int / sc >= 0 && c.y as int / sc >= 0) by (nonlinear_arith)
            requires
                sc > 0,
        ;
        assert(0 <= i < TILES);
        assert(hub.grid().cells()[i].contains(k) <==> (hub.model().contains_key(k) && hub.tile_of(k) == Some(i)));
    }
}

/// Every player of a hub has each level below `MAX_LEVEL` and no negative
/// points.
pub proof fn lemma_players_in_bounds(hub: &Hub)
    requires
        hub.wf(),
    ensures
        forall|k: Id, i: int|
            #[trigger] hub.model().contains_key(k) && 0 <= i < 8 ==> #[trigger] hub.model()[k].levels@[i] < MAX_LEVEL,
        forall|k: Id|
            #[trigger] hub.model().contains_key(k) ==> (hub.model()[k].inner matches EntityType::Player(p) ==> p.points >= 0),
{
    assert forall|k: Id, i: int| #[trigger] hub.model().contains_key(k) && 0 <= i < 8 implies #[trigger] hub.model()[k].levels@[i] < MAX_LEVEL by {
        assert(hub.model()[k].wf());
    }
    assert forall|k: Id| #[trigger] hub.model().contains_key(k) implies (hub.model()[k].inner matches EntityType::Player(p) ==> p.points >= 0) by {
        assert(hub.model()[k].wf());
    }
}

/// Every position event a hub has queued, in this batch or an earlier one,
/// names an entity whose creation was announced before it and whose
/// deletion was not announced in between.
pub proof fn lemma_positions_follow_creation(hub: &Hub)
    requires
        hub.wf(),
    ensures
        positions_follow_creation(hub.log()),
{
}

} // verus!
