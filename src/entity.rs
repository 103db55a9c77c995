use vstd::prelude::*;

use crate::events::UserEvent;
use crate::grid::GridPos;
use crate::ids::Id;
use crate::stats::{Stat, MAX_LEVEL};

verus! {

/// Aim angle in degrees; wrap-around is not enforced.
#[derive(Clone, Copy, Debug, PartialEq, Eq, Structural)]
pub struct Yaw(pub i16);

/// Progress of a player: points left to spend on upgrades, and score.
#[derive(Clone, Copy, Debug, PartialEq, Eq, Structural)]
pub struct Player {
    pub points: i32,
    pub score: i32,
}

/// The role of an entity.
#[derive(Clone, Copy, Debug, PartialEq, Eq, Structural)]
pub enum EntityType {
    Player(Player),
    Bullet { author: Id },
    Prop,
}

/// A vector with whole components, each in `-1..=1` when it comes from
/// direction keys. Also used for accelerations in tenths of a unit.
#[derive(Clone, Copy, Debug, PartialEq, Eq, Structural)]
pub struct Direction {
    pub x: i8,
    pub y: i8,
}

/// Which direction keys are held.
#[derive(Clone, Copy, Debug, PartialEq, Eq, Structural)]
pub struct DirectionChange {
    pub up: bool,
    pub left: bool,
    pub down: bool,
    pub right: bool,
}

/// `1` for a held key, `0` otherwise.
pub open spec fn key(b: bool) -> int {
    if b { 1 } else { 0 }
}

impl DirectionChange {
    /// The target velocity `(right - left, down - up)`.
    pub open spec fn spec_to_vec(self) -> Direction {
        Direction {
            x: (key(self.right) - key(self.left)) as i8,
            y: (key(self.down) - key(self.up)) as i8,
        }
    }

    pub fn to_vec(&self) -> (r: Direction)
        ensures
            r == self.spec_to_vec(),
            r.x as int == key(self.right) - key(self.left),
            r.y as int == key(self.down) - key(self.up),
    {
        Direction {
            x: self.right as i8 - self.left as i8,
            y: self.down as i8 - self.up as i8,
        }
    }
}

/// Acceleration along one axis, in tenths: toward the new target `v` when it
/// is not zero, else back against the previous cap `max` (coasting to a stop).
pub open spec fn steer(v: i8, max: i8) -> int {
    if v != 0 { v as int } else { -(max as int) }
}

/// Whether a cannon with reload period `delay` fires at `tick`, for an
/// entity whose reload stat truncates to `speed`.
pub open spec fn fires(delay: u32, speed: u32, tick: u32) -> bool {
    (delay as int * speed as int) % (tick as int) == 0
}

/// Positions, in order, of the cannons among `delays` that fire at `tick`.
pub open spec fn firing(delays: Seq<u32>, speed: u32, tick: u32) -> Seq<usize>
    decreases delays.len(),
{
    if delays.len() == 0 {
        Seq::empty()
    } else {
        let rest = firing(delays.drop_last(), speed, tick);
        if fires(delays.last(), speed, tick) {
            rest.push((delays.len() - 1) as usize)
        } else {
            rest
        }
    }
}

/// A pair of `f64` values, held as their IEEE 754 bit patterns: the library
/// stores and forwards them, the simulation computes with them.
#[derive(Clone, Copy, Debug, PartialEq, Eq, Structural)]
pub struct Vec2Bits {
    pub x: u64,
    pub y: u64,
}

/// Bit pattern of the `f32` value `100.0`, the health of a fresh entity.
pub const FULL_HEALTH: u32 = 0x42c8_0000;

/// How an entity's velocity changes each tick.
#[derive(Clone, Copy, Debug, PartialEq, Eq, Structural)]
pub enum Acceleration {
    /// Set by direction keys, in tenths of a unit per tick on each axis.
    Steering(Direction),
    /// A fixed `f64` pair, as bullets slow down.
    Drift(Vec2Bits),
}

/// What a position event tells of an entity.
#[derive(Clone, Copy, Debug, PartialEq, Eq, Structural)]
pub struct Report {
    pub coordinates: Vec2Bits,
    pub yaw: Yaw,
    pub velocity: Vec2Bits,
}

/// The unit of simulation. Players and bullets share this representation.
#[derive(Clone, Copy, Debug)]
pub struct Entity {
    pub coordinates: Vec2Bits,
    /// Whole parts of the absolute coordinates, as the spatial grid reads them.
    pub cell: GridPos,
    pub velocity: Vec2Bits,
    pub acceleration: Acceleration,
    /// Velocity cap on each axis, sign included.
    pub max_velocity: Direction,
    pub yaw: Yaw,
    /// Id of the tank definition.
    pub tank: i32,
    pub levels: [u8; 8],
    pub inner: EntityType,
    pub shooting: bool,
    /// Bit pattern of an `f32` health, in percent of the current maximum.
    pub health: u32,
    /// Position, aim and velocity as of the end of the last tick (as of the
    /// spawn, before the first), against which the next tick's are compared.
    pub reported: Report,
}

impl Entity {
    pub open spec fn spec_levels(self) -> Seq<u8> {
        self.levels@
    }

    pub open spec fn spec_level(self, stat: Stat) -> u8 {
        self.levels@[stat.spec_index()]
    }

    /// Every level lies below `MAX_LEVEL`, a player's points are not
    /// negative, and the velocity cap is a key direction.
    pub open spec fn wf(self) -> bool {
        &&& forall|i: int| 0 <= i < 8 ==> #[trigger] self.levels@[i] < MAX_LEVEL
        &&& (self.inner matches EntityType::Player(p) ==> p.points >= 0)
        &&& -1 <= self.max_velocity.x <= 1
        &&& -1 <= self.max_velocity.y <= 1
    }

    /// An upgrade of `stat` takes effect: the entity is a player with
    /// points left and the level is not the last one.
    pub open spec fn can_upgrade(self, stat: Stat) -> bool {
        &&& self.spec_level(stat) + 1 < MAX_LEVEL
        &&& self.inner matches EntityType::Player(p) && p.points > 0
    }

    /// `after` is what an upgrade request for `stat` leaves behind: one point
    /// spent and the level raised where it takes effect, nothing changed
    /// otherwise.
    pub open spec fn upgraded_to(self, stat: Stat, after: Entity) -> bool {
        if self.can_upgrade(stat) {
            let p = self.inner->Player_0;
            &&& after.levels@ == self.levels@.update(
                stat.spec_index(),
                (self.spec_level(stat) + 1) as u8,
            )
            &&& after.inner == EntityType::Player(
                Player { points: (p.points - 1) as i32, score: p.score },
            )
            &&& after == Entity { levels: after.levels, inner: after.inner, ..self }
        } else {
            after == self
        }
    }

    /// This is a fresh entity at `coordinates`, as `new` makes it.
    pub open spec fn is_new(self, coordinates: Vec2Bits, cell: GridPos, tank: i32, inner: EntityType) -> bool {
        &&& self == Entity {
            coordinates,
            cell,
            velocity: Vec2Bits { x: 0, y: 0 },
            acceleration: Acceleration::Steering(Direction { x: 0, y: 0 }),
            max_velocity: Direction { x: 0, y: 0 },
            yaw: Yaw(0),
            tank,
            levels: self.levels,
            inner,
            shooting: false,
            health: FULL_HEALTH,
            reported: Report { coordinates, yaw: Yaw(0), velocity: Vec2Bits { x: 0, y: 0 } },
        }
        &&& self.levels@ == seq![0u8; 8]
    }

    /// A fresh entity at `coordinates` (falling in `cell`): at rest, aim 0,
    /// all levels 0, not shooting, full health.
    pub fn new(coordinates: Vec2Bits, cell: GridPos, tank: i32, inner: EntityType) -> (r: Entity)
        ensures
            r.coordinates == coordinates,
            r.cell == cell,
            r.velocity == (Vec2Bits { x: 0, y: 0 }),
            r.acceleration == Acceleration::Steering(Direction { x: 0, y: 0 }),
            r.max_velocity == (Direction { x: 0, y: 0 }),
            r.yaw == Yaw(0),
            r.tank == tank,
            r.spec_levels() == seq![0u8; 8],
            r.inner == inner,
            !r.shooting,
            r.health == FULL_HEALTH,
            r.reported == (Report { coordinates, yaw: Yaw(0), velocity: Vec2Bits { x: 0, y: 0 } }),
            (inner matches EntityType::Player(p) ==> p.points >= 0) ==> r.wf(),
            r.is_new(coordinates, cell, tank, inner),
    {
        let r = Entity {
            coordinates,
            cell,
            velocity: Vec2Bits { x: 0, y: 0 },
            acceleration: Acceleration::Steering(Direction { x: 0, y: 0 }),
            max_velocity: Direction { x: 0, y: 0 },
            yaw: Yaw(0),
            tank,
            levels: [0u8; 8],
            inner,
            shooting: false,
            health: FULL_HEALTH,
            reported: Report { coordinates, yaw: Yaw(0), velocity: Vec2Bits { x: 0, y: 0 } },
        };
        assert(r.levels@ =~= seq![0u8; 8]);
        r
    }

    pub fn level(&self, stat: Stat) -> (r: u8)
        ensures
            r == self.spec_level(stat),
    {
        self.levels[stat.index()]
    }

    /// Level multiplier of `stat` for this entity, in twentieths.
    pub fn stat_multiplier(&self, stat: Stat) -> (r: i32)
        ensures
            r as int == stat.spec_multiplier(self.spec_level(stat) as int),
    {
        stat.multiplier_twentieths(self.level(stat))
    }

    /// Spends one point to raise the level of `stat`, for a player with
    /// points left whose level is below the last one; otherwise does nothing.
    pub fn increment_level(&mut self, stat: Stat)
        ensures
            old(self).upgraded_to(stat, *final(self)),
            old(self).wf() ==> final(self).wf(),
    {
        let i = stat.index();
        let current_level = self.levels[i];
        if current_level >= MAX_LEVEL - 1 {
            return;
        }
        if let EntityType::Player(p) = self.inner {
            if p.points <= 0 {
                return;
            }
            self.inner = EntityType::Player(Player { points: p.points - 1, score: p.score });
            self.levels[i] = current_level + 1;
        }
    }

    /// The acceleration, in tenths, that steering toward `direction` gives.
    pub open spec fn steering(self, direction: DirectionChange) -> Direction {
        let v = direction.spec_to_vec();
        Direction {
            x: steer(v.x, self.max_velocity.x) as i8,
            y: steer(v.y, self.max_velocity.y) as i8,
        }
    }

    /// Sets the velocity cap to the held keys' direction, and the
    /// acceleration, in tenths, toward the new cap on each axis that has one
    /// and against the previous cap on each axis that has none.
    pub fn change_direction(&mut self, direction: DirectionChange)
        requires
            old(self).wf(),
        ensures
            *final(self) == old(self).steered(direction),
            final(self).wf(),
    {
        let v = direction.to_vec();
        let max = self.max_velocity;
        let x: i8 = if v.x != 0 { v.x } else { -max.x };
        let y: i8 = if v.y != 0 { v.y } else { -max.y };
        self.max_velocity = v;
        self.acceleration = Acceleration::Steering(Direction { x, y });
    }

    /// The entity after a direction change.
    pub open spec fn steered(self, direction: DirectionChange) -> Entity {
        Entity {
            max_velocity: direction.spec_to_vec(),
            acceleration: Acceleration::Steering(self.steering(direction)),
            ..self
        }
    }

    /// The entity after applying one client event.
    pub open spec fn handled(self, event: UserEvent, after: Entity) -> bool {
        match event {
            UserEvent::DirectionChange { direction } => after == self.steered(direction),
            UserEvent::Yaw { yaw } => after == (Entity { yaw, ..self }),
            UserEvent::SetShooting { shooting } => after == (Entity { shooting, ..self }),
            UserEvent::LevelUpgrade { stat } => self.upgraded_to(stat, after),
        }
    }

    /// Applies one client event: a direction change steers, a yaw aims, a
    /// shooting flag is set, and an upgrade request calls `increment_level`.
    pub fn handle_event(&mut self, event: UserEvent)
        requires
            old(self).wf(),
        ensures
            old(self).handled(event, *final(self)),
            final(self).wf(),
    {
        match event {
            UserEvent::DirectionChange { direction } => self.change_direction(direction),
            UserEvent::Yaw { yaw } => self.yaw = yaw,
            UserEvent::SetShooting { shooting } => self.shooting = shooting,
            UserEvent::LevelUpgrade { stat } => self.increment_level(stat),
        }
    }

    /// Level that a bullet's stat at position `i` inherits from this parent.
    pub open spec fn child_level(self, i: int) -> u8 {
        match Stat::spec_for_child(i) {
            Some(s) => self.spec_level(s),
            None => 0,
        }
    }

    /// The bullet that a cannon with offset `cannon_yaw` fires for this
    /// entity, whose id is `own_id`: at the entity's position, aimed at the
    /// sum of both yaws, of tank `bullet_tank`, moving at `velocity` (the unit
    /// vector of its yaw) and slowing by `drift` (a tenth of it, negated),
    /// with levels inherited through `Stat::for_child`.
    pub fn create_bullet(
        &self,
        cannon_yaw: i16,
        bullet_tank: i32,
        own_id: Id,
        velocity: Vec2Bits,
        drift: Vec2Bits,
    ) -> (r: Entity)
        requires
            i16::MIN <= self.yaw.0 + cannon_yaw <= i16::MAX,
        ensures
            r.coordinates == self.coordinates,
            r.cell == self.cell,
            r.velocity == velocity,
            r.acceleration == Acceleration::Drift(drift),
            r.health == FULL_HEALTH,
            r.reported == (Report {
                coordinates: self.coordinates,
                yaw: Yaw((self.yaw.0 + cannon_yaw) as i16),
                velocity,
            }),
            r.yaw == Yaw((self.yaw.0 + cannon_yaw) as i16),
            r.tank == bullet_tank,
            r.inner == (EntityType::Bullet { author: own_id }),
            !r.shooting,
            r.max_velocity == (Direction { x: 0, y: 0 }),
            forall|i: int| 0 <= i < 8 ==> #[trigger] r.levels@[i] == self.child_level(i),
            self.wf() ==> r.wf(),
    {
        let mut levels = [0u8; 8];
        let mut i: usize = 0;
        while i < 8
            invariant
                0 <= i <= 8,
                forall|j: int| 0 <= j < i ==> #[trigger] levels@[j] == self.child_level(j),
            decreases 8 - i,
        {
            levels[i] = match Stat::for_child(i) {
                Some(s) => self.level(s),
                None => 0,
            };
            i = i + 1;
        }
        let yaw = Yaw(self.yaw.0 + cannon_yaw);
        Entity {
            coordinates: self.coordinates,
            cell: self.cell,
            velocity,
            acceleration: Acceleration::Drift(drift),
            yaw,
            tank: bullet_tank,
            levels,
            inner: EntityType::Bullet { author: own_id },
            shooting: false,
            max_velocity: Direction { x: 0, y: 0 },
            health: FULL_HEALTH,
            reported: Report { coordinates: self.coordinates, yaw, velocity },
        }
    }

    /// Positions, in order, of the cannons among `delays` that fire at
    /// `tick` for an entity whose reload stat truncates to `speed`: those
    /// whose `delay * speed` is a multiple of `tick`.
    pub fn active_cannons(delays: &Vec<u32>, speed: u32, tick: u32) -> (r: Vec<usize>)
        requires
            tick > 0,
            forall|i: int| 0 <= i < delays.len() ==> #[trigger] delays[i] * speed <= u32::MAX,
        ensures
            r@ == firing(delays@, speed, tick),
    {
        let mut r: Vec<usize> = Vec::new();
        let mut i: usize = 0;
        while i < delays.len()
            invariant
                tick > 0,
                i <= delays.len(),
                forall|k: int| 0 <= k < delays.len() ==> #[trigger] delays[k] * speed <= u32::MAX,
                r@ == firing(delays@.subrange(0, i as int), speed, tick),
            decreases delays.len() - i,
        {
            proof {
                assert(delays@.subrange(0, i + 1).drop_last() =~= delays@.subrange(0, i as int));
            }
            let d = delays[i];
            if (d * speed) % tick == 0 {
                r.push(i);
            }
            i = i + 1;
        }
        assert(delays@.subrange(0, delays.len() as int) =~= delays@);
        r
    }
}

/// A successful upgrade of `stat` strictly raises its level multiplier (and
/// so the stat, for a positive base value), except for `Reload`, whose
/// multiplier strictly falls.
pub proof fn lemma_upgrade_moves_stat(e: Entity, stat: Stat, after: Entity)
    requires
        e.can_upgrade(stat),
        e.upgraded_to(stat, after),
    ensures
        stat != Stat::Reload ==> stat.spec_multiplier(after.spec_level(stat) as int)
            > stat.spec_multiplier(e.spec_level(stat) as int),
        stat == Stat::Reload ==> stat.spec_multiplier(after.spec_level(stat) as int)
            < stat.spec_multiplier(e.spec_level(stat) as int),
{
}

/// Releasing every direction key removes the velocity cap, and on each axis
/// the acceleration points back against the previous cap, so the velocity
/// coasts toward rest.
pub proof fn lemma_coast(e: Entity)
    requires
        e.wf(),
    ensures
        ({
            let after = e.steered(DirectionChange { up: false, left: false, down: false, right: false });
            &&& after.max_velocity == (Direction { x: 0, y: 0 })
            &&& after.acceleration == Acceleration::Steering(
                Direction { x: -e.max_velocity.x as i8, y: -e.max_velocity.y as i8 },
            )
        }),
{
}

/// Once a stat has reached level `MAX_LEVEL - 1`, an upgrade request for it
/// leaves the entity, its points and levels included, unchanged.
pub proof fn lemma_level_cap(e: Entity, stat: Stat, after: Entity)
    requires
        e.spec_level(stat) == MAX_LEVEL - 1,
        e.upgraded_to(stat, after),
    ensures
        after == e,
        after.levels == e.levels,
        after.inner == e.inner,
{
}

} // verus!
