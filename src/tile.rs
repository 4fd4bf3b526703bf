use vstd::prelude::*;

use crate::coords::CoordsDelta;

verus! {

/// A path tile info.
/// The path is an oriented non-crossing line of tiles, over which the caravan and enemies move.
#[derive(Clone, Copy, PartialEq, Eq, Structural, Debug)]
pub struct Path {
    /// The direction in which the caravan will move. An other path tile is expected there.
    pub forward: CoordsDelta,
    /// The direction in which the enemies will move. An other path tile is expected there.
    pub backward: CoordsDelta,
    /// The distance in tiles, along the path, from the left-most path tile.
    pub distance: i32,
}

/// The ground of a tile doesn't move (unlike `Obj`s).
#[derive(Clone, Copy, PartialEq, Eq, Structural, Debug)]
pub enum Ground {
    Grass { visual_variant: u32 },
    Path(Path),
    Water,
}

#[derive(Clone, Copy, PartialEq, Eq, Structural, Debug)]
pub enum Tower {
    Basic,
    Pink,
    Blue,
}

#[derive(Clone, Copy, PartialEq, Eq, Structural, Debug)]
pub enum Enemy {
    Basic,
}

/// An object that can be on a tile and maybe move or do stuff.
#[derive(Clone, Copy, PartialEq, Eq, Structural, Debug)]
pub enum Obj {
    Caravan,
    Tree,
    Rock { visual_variant: u32 },
    Crystal,
    Enemy { actions: i32, hp: i32, fire: i32, variant: Enemy },
    Tower { actions: i32, hp: i32, fire: i32, variant: Tower },
}

#[derive(Clone, Copy, PartialEq, Eq, Structural, Debug)]
pub struct Tile {
    pub ground: Ground,
    pub obj: Option<Obj>,
}

/// When a shot hits its target, it may spawn new shots from that target: one
/// further in the same direction (piercing) or two on the sides (splitting).
#[derive(Debug)]
pub enum ShotCascade {
    Stop,
    Piercing(Box<Shot>),
    SplitInTwo(Box<Shot>),
}

/// What a shot does to the object that it hits.
#[derive(Debug)]
pub struct Shot {
    /// Negative damages heal.
    pub damages: i32,
    pub fire: i32,
    pub additional_actions: i32,
    pub cascade: ShotCascade,
}

/// `v` brought back into the range of `i32`.
pub open spec fn clamp32(v: int) -> int {
    if v < i32::MIN {
        i32::MIN as int
    } else if v > i32::MAX {
        i32::MAX as int
    } else {
        v
    }
}

/// `a + b`, saturating at the bounds of `i32`.
pub fn sat_add(a: i32, b: i32) -> (r: i32)
    ensures
        r == clamp32(a + b),
{
    let s: i64 = a as i64 + b as i64;
    if s > i32::MAX as i64 {
        i32::MAX
    } else if s < i32::MIN as i64 {
        i32::MIN
    } else {
        s as i32
    }
}

/// `a - b`, saturating at the bounds of `i32`.
pub fn sat_sub(a: i32, b: i32) -> (r: i32)
    ensures
        r == clamp32(a - b),
{
    let s: i64 = a as i64 - b as i64;
    if s > i32::MAX as i64 {
        i32::MAX
    } else if s < i32::MIN as i64 {
        i32::MIN
    } else {
        s as i32
    }
}

impl Ground {
    pub fn is_path(&self) -> (r: bool)
        ensures
            r == self is Path,
    {
        matches!(self, Ground::Path(_))
    }

    pub fn is_water(&self) -> (r: bool)
        ensures
            r == self is Water,
    {
        matches!(self, Ground::Water)
    }

    pub fn is_grass(&self) -> (r: bool)
        ensures
            r == self is Grass,
    {
        matches!(self, Ground::Grass { .. })
    }

    pub fn path(&self) -> (r: Option<Path>)
        ensures
            r == match *self {
                Ground::Path(p) => Some(p),
                _ => None::<Path>,
            },
    {
        match self {
            Ground::Path(path) => Some(*path),
            _ => None,
        }
    }
}

/// Hit points that a freshly placed tower of the given type has.
pub open spec fn tower_initial_hp(t: Tower) -> int {
    match t {
        Tower::Basic => 3,
        Tower::Pink => 4,
        Tower::Blue => 3,
    }
}

pub open spec fn plain_shot(damages: int, fire: int, additional_actions: int) -> Shot {
    Shot {
        damages: damages as i32,
        fire: fire as i32,
        additional_actions: additional_actions as i32,
        cascade: ShotCascade::Stop,
    }
}

/// The shot that a tower of the given type fires.
pub open spec fn tower_shot(t: Tower) -> Shot {
    match t {
        Tower::Basic => plain_shot(1, 0, 0),
        Tower::Pink => Shot {
            damages: -1i32,
            fire: 0,
            additional_actions: 0,
            cascade: ShotCascade::SplitInTwo(Box::new(plain_shot(3, 0, 0))),
        },
        Tower::Blue => Shot {
            damages: 0,
            fire: 0,
            additional_actions: 2,
            cascade: ShotCascade::Piercing(
                Box::new(
                    Shot {
                        damages: 1,
                        fire: 0,
                        additional_actions: 0,
                        cascade: ShotCascade::Piercing(Box::new(plain_shot(0, 4, 0))),
                    },
                ),
            ),
        },
    }
}

/// How many shots a shot and its piercing successors make, when each one hits.
pub open spec fn pierce_chain_len(s: Shot) -> nat
    decreases s,
{
    match s.cascade {
        ShotCascade::Piercing(next) => 1 + pierce_chain_len(*next),
        _ => 1,
    }
}

impl Tower {
    pub fn initial_hp(&self) -> (r: i32)
        ensures
            r == tower_initial_hp(*self),
    {
        match self {
            Tower::Basic => 3,
            Tower::Pink => 4,
            Tower::Blue => 3,
        }
    }

    pub fn shot(&self) -> (r: Shot)
        ensures
            r == tower_shot(*self),
    {
        match self {
            Tower::Basic => Shot {
                damages: 1,
                fire: 0,
                additional_actions: 0,
                cascade: ShotCascade::Stop,
            },
            Tower::Pink => Shot {
                damages: -1,
                fire: 0,
                additional_actions: 0,
                cascade: ShotCascade::SplitInTwo(
                    Box::new(
                        Shot { damages: 3, fire: 0, additional_actions: 0, cascade: ShotCascade::Stop },
                    ),
                ),
            },
            Tower::Blue => Shot {
                damages: 0,
                additional_actions: 2,
                fire: 0,
                cascade: ShotCascade::Piercing(
                    Box::new(
                        Shot {
                            damages: 1,
                            additional_actions: 0,
                            fire: 0,
                            cascade: ShotCascade::Piercing(
                                Box::new(
                                    Shot {
                                        damages: 0,
                                        additional_actions: 0,
                                        fire: 4,
                                        cascade: ShotCascade::Stop,
                                    },
                                ),
                            ),
                        },
                    ),
                ),
            },
        }
    }

    /// The tower type that comes after this one when cycling through them.
    pub fn next_type(&self) -> (r: Tower)
        ensures
            r == match *self {
                Tower::Basic => Tower::Pink,
                Tower::Pink => Tower::Blue,
                Tower::Blue => Tower::Basic,
            },
    {
        match self {
            Tower::Basic => Tower::Pink,
            Tower::Pink => Tower::Blue,
            Tower::Blue => Tower::Basic,
        }
    }
}

impl Shot {
    /// A copy of the shot, cascade included.
    pub fn duplicate(&self) -> (r: Shot)
        ensures
            r == *self,
        decreases self,
    {
        let cascade = match &self.cascade {
            ShotCascade::Stop => ShotCascade::Stop,
            ShotCascade::Piercing(next) => ShotCascade::Piercing(Box::new(next.duplicate())),
            ShotCascade::SplitInTwo(next) => ShotCascade::SplitInTwo(Box::new(next.duplicate())),
        };
        Shot {
            damages: self.damages,
            fire: self.fire,
            additional_actions: self.additional_actions,
            cascade,
        }
    }
}

pub open spec fn obj_hp(o: Obj) -> Option<int> {
    match o {
        Obj::Enemy { hp, .. } => Some(hp as int),
        Obj::Tower { hp, .. } => Some(hp as int),
        _ => None,
    }
}

impl Obj {
    pub fn hp(&self) -> (r: Option<i32>)
        ensures
            r.is_some() == obj_hp(*self).is_some(),
            r.is_some() ==> r.unwrap() == obj_hp(*self).unwrap(),
    {
        match self {
            Obj::Enemy { hp, .. } => Some(*hp),
            Obj::Tower { hp, .. } => Some(*hp),
            _ => None,
        }
    }

    /// A new enemy, with no pending action and no fire.
    pub fn new_enemy(hp: i32) -> (r: Obj)
        ensures
            r == (Obj::Enemy { actions: 0, hp, fire: 0, variant: Enemy::Basic }),
    {
        Obj::Enemy { actions: 0, hp, fire: 0, variant: Enemy::Basic }
    }

    /// A new tower of the given type, with its initial hit points.
    pub fn new_tower(variant: Tower) -> (r: Obj)
        ensures
            r == (Obj::Tower {
                actions: 0,
                hp: tower_initial_hp(variant) as i32,
                fire: 0,
                variant,
            }),
    {
        Obj::Tower { actions: 0, hp: variant.initial_hp(), fire: 0, variant }
    }
}

impl Tile {
    pub fn has_path(&self) -> (r: bool)
        ensures
            r == self.ground is Path,
    {
        self.ground.is_path()
    }

    pub fn has_water(&self) -> (r: bool)
        ensures
            r == self.ground is Water,
    {
        self.ground.is_water()
    }

    pub fn has_caravan(&self) -> (r: bool)
        ensures
            r == (self.obj == Some(Obj::Caravan)),
    {
        match self.obj {
            Some(Obj::Caravan) => true,
            _ => false,
        }
    }

    pub fn has_enemy(&self) -> (r: bool)
        ensures
            r == (self.obj.is_some() && self.obj.unwrap() is Enemy),
    {
        match self.obj {
            Some(Obj::Enemy { .. }) => true,
            _ => false,
        }
    }

    pub fn is_empty_grass(&self) -> (r: bool)
        ensures
            r == (self.obj.is_none() && self.ground is Grass),
    {
        self.obj.is_none() && self.ground.is_grass()
    }

    pub fn path(&self) -> (r: Option<Path>)
        ensures
            r == match self.ground {
                Ground::Path(p) => Some(p),
                _ => None::<Path>,
            },
    {
        self.ground.path()
    }
}

/// The ground is a path tile at distance `d`.
pub open spec fn path_dist_is(g: Ground, d: int) -> bool {
    match g {
        Ground::Path(p) => p.distance == d,
        _ => false,
    }
}

/// The `forward` step of a path tile (no step elsewhere).
pub open spec fn forward_of(g: Ground) -> CoordsDelta {
    match g {
        Ground::Path(p) => p.forward,
        _ => CoordsDelta { dx: 0, dy: 0 },
    }
}

/// Whether a path tile changes direction: its two ends are not on one line.
pub open spec fn turns(p: Path) -> bool {
    !((p.backward.dx == 0 && p.forward.dx == 0) || (p.backward.dy == 0 && p.forward.dy == 0))
}

} // verus!
