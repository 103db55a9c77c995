use vstd::prelude::*;

verus! {

/// Number of upgrade levels per stat: a level lies in `0..MAX_LEVEL`.
pub const MAX_LEVEL: u8 = 10;

/// The eight upgradable attributes, in their fixed order.
#[derive(Clone, Copy, Debug, PartialEq, Eq, Structural)]
pub enum Stat {
    HealthRegen,
    MaxHealth,
    BodyDamage,
    BulletSpeed,
    BulletPenetration,
    BulletDamage,
    Reload,
    MovementSpeed,
}

impl Stat {
    /// Position of the stat in the fixed ordering, as used for
    /// `base_stats` and `levels`.
    pub open spec fn spec_index(self) -> int {
        match self {
            Stat::HealthRegen => 0,
            Stat::MaxHealth => 1,
            Stat::BodyDamage => 2,
            Stat::BulletSpeed => 3,
            Stat::BulletPenetration => 4,
            Stat::BulletDamage => 5,
            Stat::Reload => 6,
            Stat::MovementSpeed => 7,
        }
    }

    pub fn index(&self) -> (r: usize)
        ensures
            r as int == self.spec_index(),
            r < 8,
    {
        match self {
            Stat::HealthRegen => 0,
            Stat::MaxHealth => 1,
            Stat::BodyDamage => 2,
            Stat::BulletSpeed => 3,
            Stat::BulletPenetration => 4,
            Stat::BulletDamage => 5,
            Stat::Reload => 6,
            Stat::MovementSpeed => 7,
        }
    }

    /// The stat at a position of the fixed ordering, if there is one.
    pub fn from_index(i: u32) -> (r: Option<Stat>)
        ensures
            i < 8 <==> r is Some,
            r matches Some(s) ==> s.spec_index() == i,
    {
        match i {
            0 => Some(Stat::HealthRegen),
            1 => Some(Stat::MaxHealth),
            2 => Some(Stat::BodyDamage),
            3 => Some(Stat::BulletSpeed),
            4 => Some(Stat::BulletPenetration),
            5 => Some(Stat::BulletDamage),
            6 => Some(Stat::Reload),
            7 => Some(Stat::MovementSpeed),
            _ => None,
        }
    }

    /// Which of the parent's stats a bullet's stat at position `value`
    /// inherits its level from.
    pub open spec fn spec_for_child(value: int) -> Option<Stat> {
        if value == 5 {
            Some(Stat::BodyDamage)
        } else if value == 4 {
            Some(Stat::MaxHealth)
        } else if value == 3 {
            Some(Stat::MovementSpeed)
        } else {
            None
        }
    }

    /// Bullet damage comes from body damage, bullet penetration from max
    /// health and bullet speed from movement speed; other stats inherit
    /// nothing.
    pub fn for_child(value: usize) -> (r: Option<Stat>)
        ensures
            r == Stat::spec_for_child(value as int),
    {
        match value {
            5 => Some(Stat::BodyDamage),
            4 => Some(Stat::MaxHealth),
            3 => Some(Stat::MovementSpeed),
            _ => None,
        }
    }

    /// The factor that a stat's level applies to its base value, in
    /// twentieths: `1 - level/20` for `Reload`, `1 + level/10` otherwise.
    pub open spec fn spec_multiplier(self, level: int) -> int {
        match self {
            Stat::Reload => 20 - level,
            _ => 20 + 2 * level,
        }
    }

    /// Level multiplier of this stat at `level`, in twentieths.
    pub fn multiplier_twentieths(&self, level: u8) -> (r: i32)
        ensures
            r as int == self.spec_multiplier(level as int),
    {
        match self {
            Stat::Reload => 20 - level as i32,
            _ => 20 + 2 * level as i32,
        }
    }
}

} // verus!
