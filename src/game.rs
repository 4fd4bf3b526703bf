use vstd::prelude::*;

use crate::chunk::{chance, rand_range};
use crate::coords::{Coords, CoordsDelta, Dimensions, Grid, at, four_directions};
use crate::draw::SoundEffect;
use crate::map::{
    GameMap,
    WorldError,
    after_hit,
    damaged,
    is_first_caravan,
    lemma_first_caravan_unique,
    obj_replaced,
};
use crate::tile::{
    Ground,
    Obj,
    Shot,
    ShotCascade,
    Tile,
    Tower,
    clamp32,
    sat_add,
    forward_of,
    sat_sub,
    tower_initial_hp,
};

verus! {

/// Crystals that the player starts with.
pub const INITIAL_CRYSTALS: i32 = 20;

/// Crystals that placing a tower costs.
pub const TOWER_PRICE: i32 = 10;

/// Crystals that mining a crystal gives.
pub const CRYSTAL_REWARD: i32 = 30;

/// Duration of every animation, in milliseconds.
pub const ANIMATION_MS: u64 = 50;

/// Whose turn it is.
#[derive(Clone, Copy, PartialEq, Eq, Structural, Debug)]
pub enum Phase {
    Player,
    Enemy,
    Tower,
    GameOver,
}

/// A period over which something happens, in milliseconds of some clock.
#[derive(Clone, Copy, PartialEq, Eq, Structural, Debug)]
pub struct TimeProgression {
    pub start: u64,
    pub duration: u64,
}

impl TimeProgression {
    pub fn new(start: u64, duration: u64) -> (tp: TimeProgression)
        ensures
            tp.start == start && tp.duration == duration,
    {
        TimeProgression { start, duration }
    }

    /// The period is over at `now`.
    pub fn is_done(&self, now: u64) -> (r: bool)
        ensures
            r == (now >= self.start && now - self.start >= self.duration),
    {
        now >= self.start && now - self.start >= self.duration
    }
}

/// Something that happens over a period (handled by an `Animation`).
#[derive(Debug)]
pub enum AnimationAction {
    Move { obj: Obj, from: Coords, to: Coords },
    /// The camera moves on the X axis (normally only to the right).
    CameraMoveX { from: i32, to: i32 },
    Appear { obj: Obj, to: Coords },
    Disappear { obj: Obj, from: Coords },
    Shoot { from: Coords, direction: CoordsDelta, shot: Shot },
}

#[derive(Debug)]
pub struct Animation {
    pub action: AnimationAction,
    pub tp: TimeProgression,
}

impl Animation {
    pub fn duplicate(&self) -> (r: Animation)
        ensures
            r == *self,
    {
        let action = match &self.action {
            AnimationAction::Move { obj, from, to } => AnimationAction::Move {
                obj: *obj,
                from: *from,
                to: *to,
            },
            AnimationAction::CameraMoveX { from, to } => AnimationAction::CameraMoveX {
                from: *from,
                to: *to,
            },
            AnimationAction::Appear { obj, to } => AnimationAction::Appear { obj: *obj, to: *to },
            AnimationAction::Disappear { obj, from } => AnimationAction::Disappear {
                obj: *obj,
                from: *from,
            },
            AnimationAction::Shoot { from, direction, shot } => AnimationAction::Shoot {
                from: *from,
                direction: *direction,
                shot: shot.duplicate(),
            },
        };
        Animation { action, tp: self.tp }
    }
}

/// A shot animation.
pub open spec fn shoot(from: Coords, direction: CoordsDelta, shot: Shot, tp: TimeProgression) -> Animation {
    Animation { action: AnimationAction::Shoot { from, direction, shot }, tp }
}

/// The side direction of a split shot: `(dy, dx)` for a shot going `(dx, dy)`.
pub open spec fn side_of(d: CoordsDelta) -> CoordsDelta {
    CoordsDelta { dx: d.dy, dy: d.dx }
}

pub open spec fn opposite(d: CoordsDelta) -> CoordsDelta {
    CoordsDelta { dx: (-d.dx) as i32, dy: (-d.dy) as i32 }
}

/// The shots that a shot going from `from` toward `direction` spawns when it
/// reaches the tile `to`: it goes on unchanged through an empty tile, and on
/// hitting an object it cascades as its `cascade` says.
pub open spec fn shot_successors(
    hit: bool,
    to: Coords,
    direction: CoordsDelta,
    shot: Shot,
    tp: TimeProgression,
) -> Seq<Animation> {
    if !hit {
        seq![shoot(to, direction, shot, tp)]
    } else {
        match shot.cascade {
            ShotCascade::Stop => Seq::empty(),
            ShotCascade::Piercing(next) => seq![shoot(to, direction, *next, tp)],
            ShotCascade::SplitInTwo(next) => seq![
                shoot(to, side_of(direction), *next, tp),
                shoot(to, opposite(side_of(direction)), *next, tp),
            ],
        }
    }
}

pub open spec fn pending_actions(o: Option<Obj>) -> int {
    match o {
        Some(Obj::Enemy { actions, .. }) => actions as int,
        Some(Obj::Tower { actions, .. }) => actions as int,
        _ => 0,
    }
}

pub open spec fn is_enemy(o: Option<Obj>) -> bool {
    o is Some && o.unwrap() is Enemy
}

pub open spec fn is_tower(o: Option<Obj>) -> bool {
    o is Some && o.unwrap() is Tower
}

pub open spec fn path_distance(g: Ground) -> int {
    match g {
        Ground::Path(p) => p.distance as int,
        _ => 0,
    }
}

/// An enemy on a path tile that still has an action to play.
pub open spec fn enemy_pending(t: Tile) -> bool {
    is_enemy(t.obj) && pending_actions(t.obj) >= 1 && t.ground is Path
}

/// A tower that still has an action to play.
pub open spec fn tower_pending(t: Tile) -> bool {
    is_tower(t.obj) && pending_actions(t.obj) >= 1
}

/// Some tile of `g` satisfies `enemy_pending`.
pub open spec fn some_enemy_pending(g: Grid<Tile>) -> bool {
    exists|c: Coords| g.dims.has(c) && enemy_pending(#[trigger] g.cell(c))
}

pub open spec fn some_tower_pending(g: Grid<Tile>) -> bool {
    exists|c: Coords| g.dims.has(c) && tower_pending(#[trigger] g.cell(c))
}

pub open spec fn has_caravan(g: Grid<Tile>) -> bool {
    exists|c: Coords| g.dims.has(c) && (#[trigger] g.cell(c)).obj == Some(Obj::Caravan)
}

/// Every enemy (or every tower) of `g1` got one more action in `g2`; all else is kept.
pub open spec fn granted(g1: Grid<Tile>, g2: Grid<Tile>, enemies: bool) -> bool {
    &&& g2.wf()
    &&& g2.dims == g1.dims
    &&& forall|c: Coords|
        #![trigger g2.cell(c)]
        g1.dims.has(c) ==> granted_cell(g1.cell(c), g2.cell(c), enemies)
}

/// What one enemy step does (see `Game::enemy_step`).
pub open spec fn enemy_step_post(old: Game, new: Game, r: Option<Coords>, now: u64) -> bool {
    &&& new == (Game { map: new.map, animations: new.animations, ..old })
    &&& r is None ==> !some_enemy_pending(old.map.grid) && new == old
    &&& r matches Some(c) ==> {
        let g = old.map.grid;
        let o = g.cell(c).obj.unwrap();
        let b = burnt(o);
        let bwd = match g.cell(c).ground {
            Ground::Path(p) => p.backward,
            _ => CoordsDelta { dx: 0, dy: 0 },
        };
        let (dx, dy) = (c.x + bwd.dx, c.y + bwd.dy);
        &&& g.dims.has(c)
        &&& enemy_pending(g.cell(c))
        &&& forall|c2: Coords|
            g.dims.has(c2) && enemy_pending(#[trigger] g.cell(c2)) ==> path_distance(
                g.cell(c).ground,
            ) <= path_distance(g.cell(c2).ground)
        &&& b is None ==> obj_replaced(g, new.map.grid, c, None) && new.animations@
            == old.animations@
        &&& b is Some && has_xy(g.dims, dx, dy) && can_enter(g.cell(at(dx, dy))) ==> obj_replaced(
            g,
            new.map.grid,
            c,
            None,
        ) && new.animations@ == old.animations@.push(
            Animation {
                action: AnimationAction::Move { obj: spent(b.unwrap()), from: c, to: at(dx, dy) },
                tp: TimeProgression { start: now, duration: ANIMATION_MS },
            },
        )
        &&& b is Some && !(has_xy(g.dims, dx, dy) && can_enter(g.cell(at(dx, dy))))
            ==> obj_replaced(g, new.map.grid, c, Some(spent(b.unwrap()))) && new.animations@
            == old.animations@
    }
}

/// What ending the enemy phase does (see `Game::finish_enemy_phase`).
pub open spec fn enemy_phase_finished(old: Game, new: Game, r: Result<(), WorldError>, spawn_x: i32) -> bool {
    &&& r is Err <==> !(0 <= spawn_x < old.map.grid.dims.w && first_path_row(
        old.map.grid,
        spawn_x as int,
        0,
    ) is Some)
    &&& r is Err ==> r == Err::<(), WorldError>(WorldError::NoPathOnColumn) && new == old
    &&& r is Ok ==> {
        &&& new == (Game { map: new.map, phase: new.phase, ..old })
        &&& new.phase == Phase::Tower
        &&& exists|mid: Grid<Tile>|
            spawned(old.map.grid, mid, spawn_x as int) && #[trigger] granted(
                mid,
                new.map.grid,
                false,
            )
    }
}

/// What one tower step does (see `Game::tower_step`).
pub open spec fn tower_step_post(old: Game, new: Game, r: Option<Coords>, now: u64) -> bool {
    &&& r is None ==> {
        &&& new == (Game { phase: new.phase, turn_counter: new.turn_counter, ..old })
        &&& !some_tower_pending(old.map.grid)
        &&& has_caravan(old.map.grid) ==> new.phase == Phase::Player && new.turn_counter
            == clamp32(old.turn_counter + 1)
        &&& !has_caravan(old.map.grid) ==> new.phase == Phase::GameOver && new.turn_counter
            == old.turn_counter
    }
    &&& r matches Some(c) ==> {
        let g = old.map.grid;
        let o = g.cell(c).obj.unwrap();
        let b = burnt(o);
        &&& new == (Game { map: new.map, animations: new.animations, ..old })
        &&& g.dims.has(c)
        &&& tower_pending(g.cell(c))
        &&& forall|c2: Coords|
            g.dims.has(c2) && tower_pending(#[trigger] g.cell(c2)) ==> column_rank(g.dims, c)
                <= column_rank(g.dims, c2)
        &&& b is None ==> obj_replaced(g, new.map.grid, c, None) && new.animations@
            == old.animations@
        &&& b is Some ==> obj_replaced(g, new.map.grid, c, Some(spent(b.unwrap())))
        &&& b is Some && no_target(new.map.grid, c) ==> new.animations@ == old.animations@
        &&& b is Some && !no_target(new.map.grid, c) ==> exists|d: CoordsDelta|
            #[trigger] is_best_target(new.map.grid, c, d) && new.animations@
                == old.animations@.push(
                shoot(
                    c,
                    d,
                    crate::tile::tower_shot(o->Tower_variant),
                    TimeProgression { start: now, duration: ANIMATION_MS },
                ),
            )
    }
}

/// One step of a multi-step caravan move: the caravan starts moving one
/// tile `forward`, and the player phase ends after the last step; without a
/// caravan on a path tile whose `forward` stays on the map, the move stops.
pub open spec fn caravan_stepped(old: Game, new: Game, now: u64) -> bool {
    let g = old.map.grid;
    let c = crate::map::first_caravan(g).unwrap();
    let f = forward_of(g.cell(c).ground);
    if crate::map::first_caravan(g) is Some && g.cell(c).ground is Path && has_xy(
        g.dims,
        c.x + f.dx,
        c.y + f.dy,
    ) {
        &&& obj_replaced(g, new.map.grid, c, None)
        &&& new.animations@ == old.animations@.push(
            Animation {
                action: AnimationAction::Move {
                    obj: Obj::Caravan,
                    from: c,
                    to: at(c.x + f.dx, c.y + f.dy),
                },
                tp: TimeProgression { start: now, duration: ANIMATION_MS },
            },
        )
        &&& new.distance_traveled == clamp32(path_distance(g.cell(c).ground) + 1)
        &&& new.caravan_moves_left == old.caravan_moves_left - 1
        &&& new.end_player_phase_after_animation == (old.end_player_phase_after_animation
            || old.caravan_moves_left - 1 == 0)
        &&& new == (Game {
            map: new.map,
            animations: new.animations,
            distance_traveled: new.distance_traveled,
            caravan_moves_left: new.caravan_moves_left,
            end_player_phase_after_animation: new.end_player_phase_after_animation,
            ..old
        })
    } else {
        new == (Game { caravan_moves_left: 0, ..old })
    }
}

/// All the state of a game.
pub struct Game {
    pub map: GameMap,
    pub phase: Phase,
    pub turn_counter: i32,
    pub distance_traveled: i32,
    pub crystal_amount: i32,
    pub animations: Vec<Animation>,
    /// The player phase ends once the current animations are over.
    pub end_player_phase_after_animation: bool,
    /// The player phase ends at the next update.
    pub end_player_phase_right_now: bool,
    /// How many steps the caravan still has to make before the player phase ends.
    pub caravan_moves_left: i32,
    /// The leftmost visible column.
    pub camera_x: i32,
}

impl Game {
    pub open spec fn wf(self) -> bool {
        self.map.wf()
    }

    /// A game on `map`, in the player phase, with the initial crystals.
    pub fn new(map: GameMap) -> (g: Game)
        requires
            map.wf(),
        ensures
            g.wf(),
            g.map == map,
            g.phase == Phase::Player,
            g.turn_counter == 0,
            g.distance_traveled == 0,
            g.crystal_amount == INITIAL_CRYSTALS,
            g.animations@.len() == 0,
            !g.end_player_phase_after_animation,
            !g.end_player_phase_right_now,
            g.caravan_moves_left == 0,
            g.camera_x == 0,
    {
        Game {
            map,
            phase: Phase::Player,
            turn_counter: 0,
            distance_traveled: 0,
            crystal_amount: INITIAL_CRYSTALS,
            animations: Vec::new(),
            end_player_phase_after_animation: false,
            end_player_phase_right_now: false,
            caravan_moves_left: 0,
            camera_x: 0,
        }
    }

    /// The player may act: it is the player phase and nothing is moving.
    pub open spec fn player_may_act(self) -> bool {
        self.phase == Phase::Player && self.animations@.len() == 0
    }

    /// Places a tower of type `tower` on an empty, dry tile, for `TOWER_PRICE`
    /// crystals; the player phase ends once it has appeared. Anything else
    /// (not the player's turn, outside the map, occupied or water tile, too
    /// few crystals) changes nothing and returns `false`.
    pub fn place_tower(&mut self, coords: Coords, tower: Tower, now: u64) -> (placed: bool)
        requires
            old(self).wf(),
        ensures
            final(self).wf(),
            placed == (old(self).player_may_act() && old(self).map.grid.dims.has(coords)
                && old(self).map.grid.cell(coords).obj.is_none() && !(old(self).map.grid.cell(coords).ground is Water) && old(self).crystal_amount >= TOWER_PRICE),
            !placed ==> *final(self) == *old(self),
            placed ==> {
                &&& final(self).crystal_amount == old(self).crystal_amount - TOWER_PRICE
                &&& final(self).map == old(self).map
                &&& final(self).end_player_phase_after_animation
                &&& final(self).animations@ == seq![
                    Animation {
                        action: AnimationAction::Appear {
                            obj: Obj::Tower {
                                actions: 0,
                                hp: tower_initial_hp(tower) as i32,
                                fire: 0,
                                variant: tower,
                            },
                            to: coords,
                        },
                        tp: TimeProgression { start: now, duration: ANIMATION_MS },
                    },
                ]
                &&& final(self).phase == old(self).phase
            },
    {
        if !(self.phase == Phase::Player && self.animations.len() == 0) {
            return false;
        }
        match self.map.grid.get(coords) {
            None => false,
            Some(tile) => {
                if tile.obj.is_none() && !tile.has_water() && self.crystal_amount >= TOWER_PRICE {
                    let anim = Animation {
                        action: AnimationAction::Appear { obj: Obj::new_tower(tower), to: coords },
                        tp: TimeProgression::new(now, ANIMATION_MS),
                    };
                    let ghost a = anim;
                    self.animations.push(anim);
                    self.crystal_amount = self.crystal_amount - TOWER_PRICE;
                    self.end_player_phase_after_animation = true;
                    assert(self.animations@ =~= seq![a]);
                    true
                } else {
                    false
                }
            },
        }
    }

    /// Mines the crystal on `coords`: it is removed, `CRYSTAL_REWARD` crystals
    /// are gained, and the player phase ends once it has disappeared.
    /// Anything else changes nothing and returns `false`.
    pub fn mine_crystal(&mut self, coords: Coords, now: u64) -> (mined: bool)
        requires
            old(self).wf(),
        ensures
            final(self).wf(),
            mined == (old(self).player_may_act() && old(self).map.grid.dims.has(coords) && old(self).map.grid.cell(coords).obj == Some(Obj::Crystal)),
            !mined ==> *final(self) == *old(self),
            mined ==> {
                &&& final(self).crystal_amount == clamp32(
                    old(self).crystal_amount + CRYSTAL_REWARD,
                )
                &&& obj_replaced(old(self).map.grid, final(self).map.grid, coords, None)
                &&& final(self).end_player_phase_after_animation
                &&& final(self).animations@ == seq![
                    Animation {
                        action: AnimationAction::Disappear { obj: Obj::Crystal, from: coords },
                        tp: TimeProgression { start: now, duration: ANIMATION_MS },
                    },
                ]
                &&& final(self).phase == old(self).phase
            },
    {
        if !(self.phase == Phase::Player && self.animations.len() == 0) {
            return false;
        }
        match self.map.grid.get(coords) {
            None => false,
            Some(tile) => {
                let tile = *tile;
                match tile.obj {
                    Some(Obj::Crystal) => {
                        self.map.grid.set(coords, Tile { ground: tile.ground, obj: None });
                        let anim = Animation {
                            action: AnimationAction::Disappear { obj: Obj::Crystal, from: coords },
                            tp: TimeProgression::new(now, ANIMATION_MS),
                        };
                        let ghost a = anim;
                        self.animations.push(anim);
                        self.crystal_amount = sat_add(self.crystal_amount, CRYSTAL_REWARD);
                        self.end_player_phase_after_animation = true;
                        assert(self.animations@ =~= seq![a]);
                        true
                    },
                    _ => false,
                }
            },
        }
    }

    /// Asks for the player phase to end at the next update, when the player may act.
    pub fn skip_phase(&mut self) -> (r: bool)
        requires
            old(self).wf(),
        ensures
            final(self).wf(),
            r == old(self).player_may_act(),
            r ==> *final(self) == (Game { end_player_phase_right_now: true, ..*old(self) }),
            !r ==> *final(self) == *old(self),
    {
        if self.phase == Phase::Player && self.animations.len() == 0 {
            self.end_player_phase_right_now = true;
            true
        } else {
            false
        }
    }
}

/// Gives one more action to every enemy (`enemies`) or to every tower.
fn grant_actions(grid: &mut Grid<Tile>, enemies: bool)
    requires
        old(grid).wf(),
    ensures
        granted(*old(grid), *final(grid), enemies),
{
    let ghost g0 = *grid;
    let dims = grid.dims;
    let mut y: i32 = 0;
    while y < dims.h
        invariant
            grid.wf(),
            g0.wf(),
            grid.dims == dims,
            g0.dims == dims,
            0 <= y <= dims.h,
            forall|c: Coords|
                #![trigger grid.cell(c)]
                dims.has(c) ==> if c.y < y {
                    granted_cell(g0.cell(c), grid.cell(c), enemies)
                } else {
                    grid.cell(c) == g0.cell(c)
                },
        decreases dims.h - y,
    {
        let mut x: i32 = 0;
        while x < dims.w
            invariant
                grid.wf(),
                g0.wf(),
                grid.dims == dims,
                g0.dims == dims,
                0 <= y < dims.h,
                0 <= x <= dims.w,
                forall|c: Coords|
                    #![trigger grid.cell(c)]
                    dims.has(c) ==> if c.y < y || (c.y == y && c.x < x) {
                        granted_cell(g0.cell(c), grid.cell(c), enemies)
                    } else {
                        grid.cell(c) == g0.cell(c)
                    },
            decreases dims.w - x,
        {
            let c = Coords { x, y };
            let t = *grid.get(c).unwrap();
            let obj = match t.obj {
                Some(Obj::Enemy { actions, hp, fire, variant }) => if enemies {
                    Some(Obj::Enemy { actions: sat_add(actions, 1), hp, fire, variant })
                } else {
                    t.obj
                },
                Some(Obj::Tower { actions, hp, fire, variant }) => if !enemies {
                    Some(Obj::Tower { actions: sat_add(actions, 1), hp, fire, variant })
                } else {
                    t.obj
                },
                other => other,
            };
            grid.set(c, Tile { ground: t.ground, obj });
            x = x + 1;
        }
        y = y + 1;
    }
}

/// `t2` is `t1` with one more action if it holds an enemy (`enemies`) or a tower.
pub open spec fn granted_cell(t1: Tile, t2: Tile, enemies: bool) -> bool {
    t2.ground == t1.ground && t2.obj == match t1.obj {
        Some(Obj::Enemy { actions, hp, fire, variant }) => if enemies {
            Some(Obj::Enemy { actions: clamp32(actions + 1) as i32, hp, fire, variant })
        } else {
            t1.obj
        },
        Some(Obj::Tower { actions, hp, fire, variant }) => if !enemies {
            Some(Obj::Tower { actions: clamp32(actions + 1) as i32, hp, fire, variant })
        } else {
            t1.obj
        },
        other => other,
    }
}

impl Game {
    /// Ends the player phase: every enemy gets one pending action.
    pub fn enter_enemy_phase(&mut self)
        requires
            old(self).wf(),
        ensures
            final(self).wf(),
            final(self).phase == Phase::Enemy,
            granted(old(self).map.grid, final(self).map.grid, true),
            !final(self).end_player_phase_after_animation,
            !final(self).end_player_phase_right_now,
            final(self).animations == old(self).animations,
            final(self).turn_counter == old(self).turn_counter,
            final(self).crystal_amount == old(self).crystal_amount,
            final(self).caravan_moves_left == old(self).caravan_moves_left,
            final(self).distance_traveled == old(self).distance_traveled,
            final(self).camera_x == old(self).camera_x,
            *final(self) == (Game {
                map: final(self).map,
                phase: Phase::Enemy,
                end_player_phase_after_animation: false,
                end_player_phase_right_now: false,
                ..*old(self)
            }),
    {
        self.end_player_phase_after_animation = false;
        self.end_player_phase_right_now = false;
        self.phase = Phase::Enemy;
        grant_actions(&mut self.map.grid, true);
    }
}

/// `(x, y)` is inside `d`.
pub open spec fn has_xy(d: Dimensions, x: int, y: int) -> bool {
    0 <= x < d.w && 0 <= y < d.h
}

/// An enemy may step onto the tile: it is empty, or holds the caravan or a tower.
pub open spec fn can_enter(t: Tile) -> bool {
    t.obj is None || t.obj == Some(Obj::Caravan) || is_tower(t.obj)
}

/// The object after its fire is dealt with at the start of its action: one
/// fire stack burns for one damage, when it has an action to play.
pub open spec fn burnt(o: Obj) -> Option<Obj> {
    match o {
        Obj::Enemy { actions, hp, fire, variant } => if actions >= 1 && fire >= 1 {
            damaged(Obj::Enemy { actions, hp, fire: (fire - 1) as i32, variant }, 1)
        } else {
            Some(o)
        },
        Obj::Tower { actions, hp, fire, variant } => if actions >= 1 && fire >= 1 {
            damaged(Obj::Tower { actions, hp, fire: (fire - 1) as i32, variant }, 1)
        } else {
            Some(o)
        },
        _ => Some(o),
    }
}

/// The object with one action used.
pub open spec fn spent(o: Obj) -> Obj {
    match o {
        Obj::Enemy { actions, hp, fire, variant } => Obj::Enemy {
            actions: (actions - 1) as i32,
            hp,
            fire,
            variant,
        },
        Obj::Tower { actions, hp, fire, variant } => Obj::Tower {
            actions: (actions - 1) as i32,
            hp,
            fire,
            variant,
        },
        _ => o,
    }
}

/// Rank of a coordinate when towers are gone through: left to right, then top to bottom.
pub open spec fn column_rank(d: Dimensions, c: Coords) -> int {
    c.x * d.h + c.y
}

/// The first occupied tile met from `(x, y)` on, stepping by `d`, looking at
/// no more than `n` tiles and stopping at the edge of the grid.
pub open spec fn sight(g: Grid<Tile>, x: int, y: int, d: CoordsDelta, n: nat) -> Option<Coords>
    decreases n,
{
    if n == 0 || !has_xy(g.dims, x, y) {
        None
    } else if g.cell(at(x, y)).obj is Some {
        Some(at(x, y))
    } else {
        sight(g, x + d.dx, y + d.dy, d, (n - 1) as nat)
    }
}

/// The distance of the enemy that a tower at `c` sees toward `d`, if the
/// first object in that direction is an enemy on a path tile.
pub open spec fn target_toward(g: Grid<Tile>, c: Coords, d: CoordsDelta) -> Option<int> {
    match sight(g, c.x + d.dx, c.y + d.dy, d, (g.dims.w + g.dims.h) as nat) {
        Some(t) => if is_enemy(g.cell(t).obj) && g.cell(t).ground is Path {
            Some(path_distance(g.cell(t).ground))
        } else {
            None
        },
        None => None,
    }
}

impl Game {
    /// The enemy that plays next: among the enemies on path tiles that have a
    /// pending action, one on the tile with the smallest path distance.
    pub fn next_enemy(&self) -> (r: Option<Coords>)
        requires
            self.wf(),
        ensures
            r matches Some(c) ==> {
                &&& self.map.grid.dims.has(c)
                &&& enemy_pending(self.map.grid.cell(c))
                &&& forall|c2: Coords|
                    self.map.grid.dims.has(c2) && enemy_pending(#[trigger] self.map.grid.cell(c2))
                        ==> path_distance(self.map.grid.cell(c).ground) <= path_distance(
                        self.map.grid.cell(c2).ground,
                    )
            },
            r is None ==> !some_enemy_pending(self.map.grid),
    {
        let g = &self.map.grid;
        let dims = g.dims;
        let mut best: Option<(i32, Coords)> = None;
        let mut y: i32 = 0;
        while y < dims.h
            invariant
                g.wf(),
                dims == g.dims,
                0 <= y <= dims.h,
                best matches Some((d, c)) ==> dims.has(c) && enemy_pending(g.cell(c)) && d
                    == path_distance(g.cell(c).ground),
                forall|c2: Coords|
                    dims.has(c2) && c2.y < y && enemy_pending(#[trigger] g.cell(c2)) ==> best is Some
                        && best.unwrap().0 <= path_distance(g.cell(c2).ground),
            decreases dims.h - y,
        {
            let mut x: i32 = 0;
            while x < dims.w
                invariant
                    g.wf(),
                    dims == g.dims,
                    0 <= y < dims.h,
                    0 <= x <= dims.w,
                    best matches Some((d, c)) ==> dims.has(c) && enemy_pending(g.cell(c)) && d
                        == path_distance(g.cell(c).ground),
                    forall|c2: Coords|
                        dims.has(c2) && (c2.y < y || (c2.y == y && c2.x < x)) && enemy_pending(
                            #[trigger] g.cell(c2),
                        ) ==> best is Some && best.unwrap().0 <= path_distance(g.cell(c2).ground),
                decreases dims.w - x,
            {
                let c = Coords { x, y };
                let t = *g.get(c).unwrap();
                match (t.obj, t.ground) {
                    (Some(Obj::Enemy { actions, .. }), Ground::Path(p)) => {
                        if actions >= 1 {
                            match best {
                                None => {
                                    best = Some((p.distance, c));
                                },
                                Some((d, _)) => {
                                    if p.distance < d {
                                        best = Some((p.distance, c));
                                    }
                                },
                            }
                        }
                    },
                    _ => {},
                }
                x = x + 1;
            }
            y = y + 1;
        }
        match best {
            Some((_, c)) => Some(c),
            None => None,
        }
    }

    /// The closest enemy plays one action: its fire burns first (one damage,
    /// one stack less), then, if it survived, it uses the action to step
    /// `backward` along the path onto an empty tile, the caravan or a tower
    /// (the move is an animation that puts it there when over); when the step
    /// is blocked the action is lost. Returns the enemy that played, `None`
    /// (and no change) when no enemy has a pending action.
    pub fn enemy_step(&mut self, now: u64, sounds: &mut Vec<SoundEffect>) -> (r: Option<Coords>)
        requires
            old(self).wf(),
        ensures
            final(self).wf(),
            enemy_step_post(*old(self), *final(self), r, now),
    {
        let c = match self.next_enemy() {
            None => {
                return None;
            },
            Some(c) => c,
        };
        let ghost g0 = self.map.grid;
        let t = *self.map.grid.get(c).unwrap();
        let backward = match t.ground {
            Ground::Path(p) => p.backward,
            _ => CoordsDelta { dx: 0, dy: 0 },
        };
        let (actions, hp, fire, variant) = match t.obj {
            Some(Obj::Enemy { actions, hp, fire, variant }) => (actions, hp, fire, variant),
            _ => {
                return None;
            },
        };
        let mut enemy = Obj::Enemy { actions, hp, fire, variant };
        if actions >= 1 && fire >= 1 {
            let hp2 = sat_sub(hp, 1);
            sounds.push(SoundEffect::Hit);
            if hp2 <= 0 {
                self.map.grid.set(c, Tile { ground: t.ground, obj: None });
                return Some(c);
            }
            enemy = Obj::Enemy { actions, hp: hp2, fire: fire - 1, variant };
        }
        let spent_enemy = match enemy {
            Obj::Enemy { actions, hp, fire, variant } => Obj::Enemy {
                actions: actions - 1,
                hp,
                fire,
                variant,
            },
            other => other,
        };
        let dx: i64 = c.x as i64 + backward.dx as i64;
        let dy: i64 = c.y as i64 + backward.dy as i64;
        let mut moved = false;
        if 0 <= dx && dx < self.map.grid.dims.w as i64 && 0 <= dy && dy < self.map.grid.dims.h as i64 {
            let dst = Coords { x: dx as i32, y: dy as i32 };
            let dt = *self.map.grid.get(dst).unwrap();
            let enterable = match dt.obj {
                None => true,
                Some(Obj::Caravan) => true,
                Some(Obj::Tower { .. }) => true,
                _ => false,
            };
            if enterable {
                self.map.grid.set(c, Tile { ground: t.ground, obj: None });
                self.animations.push(
                    Animation {
                        action: AnimationAction::Move { obj: spent_enemy, from: c, to: dst },
                        tp: TimeProgression::new(now, ANIMATION_MS),
                    },
                );
                sounds.push(SoundEffect::Step);
                moved = true;
            }
        }
        if !moved {
            self.map.grid.set(c, Tile { ground: t.ground, obj: Some(spent_enemy) });
        }
        Some(c)
    }
}

/// Hit points of an enemy that spawns, from a roll in `[0, 100)`: most are
/// weak, a few are tougher.
pub open spec fn spawn_hp(roll: int) -> int {
    if roll < 10 {
        12
    } else if roll < 30 {
        10
    } else {
        8
    }
}

/// The first row of column `x` that holds a path tile.
pub open spec fn first_path_row(g: Grid<Tile>, x: int, y: int) -> Option<int>
    decreases g.dims.h - y,
{
    if y < 0 || y >= g.dims.h {
        None
    } else if g.cell(at(x, y)).ground is Path {
        Some(y)
    } else {
        first_path_row(g, x, y + 1)
    }
}

proof fn lemma_first_path_row(g: Grid<Tile>, x: int, y: int)
    requires
        0 <= y,
    ensures
        first_path_row(g, x, y) matches Some(r) ==> y <= r < g.dims.h && g.cell(
            at(x, r),
        ).ground is Path,
    decreases g.dims.h - y,
{
    if y < g.dims.h {
        lemma_first_path_row(g, x, y + 1);
    }
}

/// `g2` is `g1`, or `g1` with a new enemy on the first path tile of column
/// `x`, when that tile was free.
pub open spec fn spawned(g1: Grid<Tile>, g2: Grid<Tile>, x: int) -> bool {
    ||| g2 == g1
    ||| exists|roll: int|
        0 <= roll < 100 && #[trigger] spawn_hp(roll) == spawn_hp(roll) && ({
            let y = first_path_row(g1, x, 0).unwrap();
            &&& g1.cell(at(x, y)).obj is None
            &&& obj_replaced(
                g1,
                g2,
                at(x, y),
                Some(
                    Obj::Enemy {
                        actions: 0,
                        hp: spawn_hp(roll) as i32,
                        fire: 0,
                        variant: crate::tile::Enemy::Basic,
                    },
                ),
            )
        })
}

impl Game {
    /// Ends the enemy phase: maybe spawns an enemy on the path tile of column
    /// `spawn_x` (the right edge of the view), then every tower gets one
    /// pending action and the tower phase begins. When that column is outside
    /// the map or holds no path tile, nothing changes and
    /// `NoPathOnColumn` comes back.
    pub fn finish_enemy_phase(&mut self, spawn_x: i32) -> (r: Result<(), WorldError>)
        requires
            old(self).wf(),
        ensures
            final(self).wf(),
            enemy_phase_finished(*old(self), *final(self), r, spawn_x),
    {
        let dims = self.map.grid.dims;
        if !(0 <= spawn_x && spawn_x < dims.w) {
            return Err(WorldError::NoPathOnColumn);
        }
        let mut y: i32 = 0;
        let mut found = false;
        while y < dims.h
            invariant_except_break
                !found,
            invariant
                self.wf(),
                dims == self.map.grid.dims,
                0 <= spawn_x < dims.w,
                0 <= y <= dims.h,
                first_path_row(self.map.grid, spawn_x as int, 0) == first_path_row(
                    self.map.grid,
                    spawn_x as int,
                    y as int,
                ),
            ensures
                found ==> 0 <= y < dims.h && first_path_row(self.map.grid, spawn_x as int, 0)
                    == Some(y as int),
                !found ==> first_path_row(self.map.grid, spawn_x as int, 0) is None,
            decreases dims.h - y,
        {
            let c = Coords { x: spawn_x, y };
            assert(c == at(spawn_x as int, y as int));
            if self.map.grid.get(c).unwrap().has_path() {
                found = true;
                break ;
            }
            y = y + 1;
        }
        if !found {
            return Err(WorldError::NoPathOnColumn);
        }
        let ghost g0 = self.map.grid;
        let c = Coords { x: spawn_x, y };
        assert(c == at(spawn_x as int, y as int));
        let t = *self.map.grid.get(c).unwrap();
        if t.obj.is_none() && chance(4, 10) {
            let roll = rand_range(0, 100) as i32;
            let hp: i32 = if roll < 10 {
                12
            } else if roll < 30 {
                10
            } else {
                8
            };
            self.map.grid.set(c, Tile { ground: t.ground, obj: Some(Obj::new_enemy(hp)) });
            assert(spawn_hp(roll as int) == hp);
        }
        let ghost mid = self.map.grid;
        assert(spawned(g0, mid, spawn_x as int));
        self.phase = Phase::Tower;
        grant_actions(&mut self.map.grid, false);
        assert(granted(mid, self.map.grid, false));
        Ok(())
    }

    /// The tower that plays next: the first one with a pending action, going
    /// through the columns from left to right, each from top to bottom.
    pub fn next_tower(&self) -> (r: Option<Coords>)
        requires
            self.wf(),
        ensures
            r matches Some(c) ==> {
                &&& self.map.grid.dims.has(c)
                &&& tower_pending(self.map.grid.cell(c))
                &&& forall|c2: Coords|
                    self.map.grid.dims.has(c2) && tower_pending(#[trigger] self.map.grid.cell(c2))
                        ==> column_rank(self.map.grid.dims, c) <= column_rank(self.map.grid.dims, c2)
            },
            r is None ==> !some_tower_pending(self.map.grid),
    {
        let g = &self.map.grid;
        let dims = g.dims;
        let mut x: i32 = 0;
        while x < dims.w
            invariant
                *g == self.map.grid,
                g.wf(),
                dims == g.dims,
                0 <= x <= dims.w,
                forall|c2: Coords| dims.has(c2) && c2.x < x ==> !tower_pending(#[trigger] g.cell(c2)),
            decreases dims.w - x,
        {
            let mut y: i32 = 0;
            while y < dims.h
                invariant
                    *g == self.map.grid,
                    g.wf(),
                    dims == g.dims,
                    0 <= x < dims.w,
                    0 <= y <= dims.h,
                    forall|c2: Coords|
                        dims.has(c2) && (c2.x < x || (c2.x == x && c2.y < y)) ==> !tower_pending(
                            #[trigger] g.cell(c2),
                        ),
                decreases dims.h - y,
            {
                let c = Coords { x, y };
                let t = *g.get(c).unwrap();
                match t.obj {
                    Some(Obj::Tower { actions, .. }) => {
                        if actions >= 1 {
                            proof {
                                assert forall|c2: Coords|
                                    dims.has(c2) && tower_pending(#[trigger] g.cell(c2)) implies column_rank(
                                    dims,
                                    c,
                                ) <= column_rank(dims, c2) by {
                                    if c2.x < x || (c2.x == x && c2.y < y) {
                                    } else if c2.x == x {
                                    } else {
                                        assert(x * dims.h + y <= c2.x * dims.h + c2.y) by (nonlinear_arith)
                                            requires
                                                x < c2.x,
                                                0 <= y < dims.h,
                                                0 <= c2.y,
                                        ;
                                    }
                                }
                            }
                            return Some(c);
                        }
                    },
                    _ => {},
                }
                y = y + 1;
            }
            x = x + 1;
        }
        None
    }

    /// The direction in which a tower at `c` shoots: among the four
    /// directions, the one whose first object is an enemy on the path with the
    /// smallest distance (the first in the order up, right, down, left among
    /// equals); `None` when no direction shows an enemy first.
    pub fn tower_target(&self, c: Coords) -> (r: Option<CoordsDelta>)
        requires
            self.wf(),
            self.map.grid.dims.has(c),
        ensures
            r matches Some(d) ==> is_best_target(self.map.grid, c, d),
            r is None ==> no_target(self.map.grid, c),
    {
        let g = &self.map.grid;
        let dims = g.dims;
        let dirs = CoordsDelta::iter_4_directions();
        let mut best: Option<(i32, CoordsDelta)> = None;
        let ghost mut bi: int = 0;
        let mut k: usize = 0;
        while k < 4
            invariant
                g.wf(),
                dims == g.dims,
                dims.has(c),
                dirs@ == four_directions(),
                0 <= k <= 4,
                best matches Some((dist, d)) ==> 0 <= bi < k && four_directions()[bi] == d
                    && target_toward(*g, c, d) == Some(dist as int) && forall|j: int|
                    0 <= j < bi ==> (#[trigger] target_toward(*g, c, four_directions()[j])) is Some
                        ==> dist < target_toward(*g, c, four_directions()[j]).unwrap(),
                forall|i: int|
                    0 <= i < k ==> (#[trigger] target_toward(*g, c, four_directions()[i])) is Some
                        ==> best is Some && best.unwrap().0 <= target_toward(
                        *g,
                        c,
                        four_directions()[i],
                    ).unwrap(),
            decreases 4 - k,
        {
            let d = dirs[k];
            let seen = sight_exec(g, c, d);
            match seen {
                Some(t) => {
                    let tile = *g.get(t).unwrap();
                    match (tile.obj, tile.ground) {
                        (Some(Obj::Enemy { .. }), Ground::Path(p)) => {
                            match best {
                                None => {
                                    best = Some((p.distance, d));
                                    proof {
                                        bi = k as int;
                                    }
                                },
                                Some((dist, _)) => {
                                    if p.distance < dist {
                                        best = Some((p.distance, d));
                                        proof {
                                            bi = k as int;
                                        }
                                    }
                                },
                            }
                        },
                        _ => {},
                    }
                },
                None => {},
            }
            assert(four_directions()[k as int] == d);
            k = k + 1;
        }
        proof {
            assert forall|d2: CoordsDelta| #[trigger] four_directions().contains(d2) implies (target_toward(
                *g,
                c,
                d2,
            ) is Some ==> best is Some && best.unwrap().0 <= target_toward(*g, c, d2).unwrap()) by {
                let i = choose|i: int| 0 <= i < 4 && four_directions()[i] == d2;
                assert(target_toward(*g, c, four_directions()[i]) == target_toward(*g, c, d2));
            }
            if best is Some {
                assert(four_directions().contains(best.unwrap().1)) by {
                    assert(four_directions()[bi] == best.unwrap().1);
                }
            }
        }
        match best {
            Some((_, d)) => Some(d),
            None => None,
        }
    }
}

/// `d` is the direction a tower at `c` shoots in: it shows an enemy first,
/// none shows one closer, and the directions scanned before it show farther
/// ones only.
pub open spec fn is_best_target(g: Grid<Tile>, c: Coords, d: CoordsDelta) -> bool {
    &&& four_directions().contains(d)
    &&& target_toward(g, c, d) is Some
    &&& forall|d2: CoordsDelta|
        #[trigger] four_directions().contains(d2) && target_toward(g, c, d2) is Some
            ==> target_toward(g, c, d).unwrap() <= target_toward(g, c, d2).unwrap()
    &&& forall|i: int, j: int|
        #![trigger four_directions()[i], target_toward(g, c, four_directions()[j])]
        0 <= j < i < 4 && four_directions()[i] == d && target_toward(
            g,
            c,
            four_directions()[j],
        ) is Some ==> target_toward(g, c, d).unwrap() < target_toward(
            g,
            c,
            four_directions()[j],
        ).unwrap()
}

/// No direction shows an enemy first.
pub open spec fn no_target(g: Grid<Tile>, c: Coords) -> bool {
    forall|d2: CoordsDelta| #[trigger] four_directions().contains(d2) ==> target_toward(g, c, d2) is None
}

/// The first occupied tile seen from `c` toward the unit direction `d`.
fn sight_exec(g: &Grid<Tile>, c: Coords, d: CoordsDelta) -> (r: Option<Coords>)
    requires
        g.wf(),
        g.dims.has(c),
        four_directions().contains(d),
    ensures
        r == sight(*g, c.x + d.dx, c.y + d.dy, d, (g.dims.w + g.dims.h) as nat),
        r matches Some(t) ==> g.dims.has(t),
{
    let dims = g.dims;
    let n0: i64 = dims.w as i64 + dims.h as i64;
    let mut n: i64 = n0;
    let mut x: i64 = c.x as i64 + d.dx as i64;
    let mut y: i64 = c.y as i64 + d.dy as i64;
    while n > 0 && 0 <= x && x < dims.w as i64 && 0 <= y && y < dims.h as i64
        invariant
            g.wf(),
            dims == g.dims,
            0 <= n <= n0,
            -1 <= x <= dims.w,
            -1 <= y <= dims.h,
            n0 == dims.w + dims.h,
            four_directions().contains(d),
            sight(*g, c.x + d.dx, c.y + d.dy, d, n0 as nat) == sight(*g, x as int, y as int, d, n as nat),
        decreases n,
    {
        let t = Coords { x: x as i32, y: y as i32 };
        assert(t == at(x as int, y as int));
        if g.get(t).unwrap().obj.is_some() {
            assert(has_xy(dims, x as int, y as int));
            assert(sight(*g, x as int, y as int, d, n as nat) == Some(t));
            return Some(t);
        }
        x = x + d.dx as i64;
        y = y + d.dy as i64;
        n = n - 1;
    }
    None
}

impl Game {
    /// The next tower plays one action: its fire burns first (one damage, one
    /// stack less), then, if it survived, it uses the action to shoot its
    /// shot toward its best target, if it sees one. When no tower has a
    /// pending action the tower phase ends: back to the player phase with one
    /// more turn if the caravan is still on the map, else the game is over;
    /// `None` comes back then.
    pub fn tower_step(&mut self, now: u64, sounds: &mut Vec<SoundEffect>) -> (r: Option<Coords>)
        requires
            old(self).wf(),
        ensures
            final(self).wf(),
            tower_step_post(*old(self), *final(self), r, now),
    {
        let c = match self.next_tower() {
            None => {
                let caravan = self.map.caravan_coords_and_tile();
                proof {
                    if has_caravan(self.map.grid) {
                        let w = choose|w: Coords|
                            self.map.grid.dims.has(w) && (#[trigger] self.map.grid.cell(w)).obj
                                == Some(Obj::Caravan);
                        assert(self.map.grid.cell(w).obj == Some(Obj::Caravan));
                    }
                }
                if caravan.is_some() {
                    self.phase = Phase::Player;
                    self.turn_counter = sat_add(self.turn_counter, 1);
                } else {
                    self.phase = Phase::GameOver;
                }
                return None;
            },
            Some(c) => c,
        };
        let t = *self.map.grid.get(c).unwrap();
        let (actions, hp, fire, variant) = match t.obj {
            Some(Obj::Tower { actions, hp, fire, variant }) => (actions, hp, fire, variant),
            _ => {
                return None;
            },
        };
        let mut hp2 = hp;
        let mut fire2 = fire;
        if fire >= 1 {
            hp2 = sat_sub(hp, 1);
            fire2 = fire - 1;
            sounds.push(SoundEffect::Hit);
            if hp2 <= 0 {
                self.map.grid.set(c, Tile { ground: t.ground, obj: None });
                return Some(c);
            }
        }
        let spent_tower = Obj::Tower { actions: actions - 1, hp: hp2, fire: fire2, variant };
        self.map.grid.set(c, Tile { ground: t.ground, obj: Some(spent_tower) });
        match self.tower_target(c) {
            Some(d) => {
                let shot = variant.shot();
                let anim = Animation {
                    action: AnimationAction::Shoot { from: c, direction: d, shot },
                    tp: TimeProgression::new(now, ANIMATION_MS),
                };
                self.animations.push(anim);
                sounds.push(SoundEffect::Pew);
                proof {
                    assert(is_best_target(self.map.grid, c, d));
                }
            },
            None => {},
        }
        Some(c)
    }
}

impl GameMap {
    /// Ends the flight of a shot from `from` toward the unit direction
    /// `direction`: on the next tile, outside the map it is dropped; through
    /// an empty tile it goes on unchanged; on an object it applies its
    /// effects (see `shot_hits_obj_at`) and cascades. Returns the shots that
    /// follow, which start at `now`. The tile is read when the flight ends:
    /// whatever came there meanwhile is what the shot meets.
    pub fn resolve_shot(
        &mut self,
        from: Coords,
        direction: CoordsDelta,
        shot: &Shot,
        duration: u64,
        now: u64,
        sounds: &mut Vec<SoundEffect>,
    ) -> (next: Vec<Animation>)
        requires
            old(self).wf(),
            four_directions().contains(direction),
        ensures
            final(self).wf(),
            shot_landed(old(self).grid, final(self).grid, from, direction, *shot),
            next@ == shot_next(old(self).grid, from, direction, *shot, duration, now),
            ({
                let (x, y) = (from.x + direction.dx, from.y + direction.dy);
                let g = old(self).grid;
                &&& !has_xy(g.dims, x, y) ==> next@.len() == 0 && *final(self) == *old(self)
                &&& has_xy(g.dims, x, y) && g.cell(at(x, y)).obj is None ==> *final(self) == *old(self) && next@ == shot_successors(
                    false,
                    at(x, y),
                    direction,
                    *shot,
                    TimeProgression { start: now, duration },
                )
                &&& has_xy(g.dims, x, y) && g.cell(at(x, y)).obj is Some ==> obj_replaced(
                    g,
                    final(self).grid,
                    at(x, y),
                    after_hit(g.cell(at(x, y)).obj, *shot),
                ) && next@ == shot_successors(
                    true,
                    at(x, y),
                    direction,
                    *shot,
                    TimeProgression { start: now, duration: ANIMATION_MS },
                )
            }),
    {
        let x: i64 = from.x as i64 + direction.dx as i64;
        let y: i64 = from.y as i64 + direction.dy as i64;
        let mut next: Vec<Animation> = Vec::new();
        if !(0 <= x && x < self.grid.dims.w as i64 && 0 <= y && y < self.grid.dims.h as i64) {
            return next;
        }
        let to = Coords { x: x as i32, y: y as i32 };
        assert(to == at(x as int, y as int));
        if self.grid.get(to).unwrap().obj.is_none() {
            next.push(
                Animation {
                    action: AnimationAction::Shoot { from: to, direction, shot: shot.duplicate() },
                    tp: TimeProgression::new(now, duration),
                },
            );
            assert(next@ =~= shot_successors(
                false,
                to,
                direction,
                *shot,
                TimeProgression { start: now, duration },
            ));
            return next;
        }
        self.shot_hits_obj_at(to, shot);
        sounds.push(SoundEffect::Hit);
        let tp = TimeProgression::new(now, ANIMATION_MS);
        match &shot.cascade {
            ShotCascade::Stop => {},
            ShotCascade::Piercing(piercing) => {
                next.push(
                    Animation {
                        action: AnimationAction::Shoot { from: to, direction, shot: piercing.duplicate() },
                        tp,
                    },
                );
                sounds.push(SoundEffect::Pew);
            },
            ShotCascade::SplitInTwo(side_shot) => {
                let one_side = CoordsDelta { dx: direction.dy, dy: direction.dx };
                next.push(
                    Animation {
                        action: AnimationAction::Shoot {
                            from: to,
                            direction: one_side,
                            shot: side_shot.duplicate(),
                        },
                        tp,
                    },
                );
                next.push(
                    Animation {
                        action: AnimationAction::Shoot {
                            from: to,
                            direction: one_side.neg(),
                            shot: side_shot.duplicate(),
                        },
                        tp,
                    },
                );
                sounds.push(SoundEffect::Pew);
            },
        }
        assert(next@ =~= shot_successors(true, to, direction, *shot, tp));
        next
    }
}

/// The shots of a piercing chain when every one of them hits: the shot
/// itself, then the chain of the shot it pierces with.
pub open spec fn pierce_chain(s: Shot) -> Seq<Shot>
    decreases s,
{
    match s.cascade {
        ShotCascade::Piercing(next) => seq![s] + pierce_chain(*next),
        _ => seq![s],
    }
}

/// A piercing shot nested `n` deep makes a chain of exactly `n` shots when
/// each one hits: each shot of the chain that hits spawns exactly one shot,
/// the next of the chain, one tile further in the same direction, and the
/// last one spawns none (unless it splits).
pub proof fn lemma_pierce_chain(s: Shot, to: Coords, d: CoordsDelta, tp: TimeProgression)
    ensures
        pierce_chain(s).len() == crate::tile::pierce_chain_len(s),
        pierce_chain(s)[0] == s,
        forall|i: int|
            0 <= i < pierce_chain(s).len() - 1 ==> #[trigger] shot_successors(
                true,
                to,
                d,
                pierce_chain(s)[i],
                tp,
            ) == seq![shoot(to, d, pierce_chain(s)[i + 1], tp)],
        pierce_chain(s).last().cascade is Stop ==> shot_successors(
            true,
            to,
            d,
            pierce_chain(s).last(),
            tp,
        ).len() == 0,
    decreases s,
{
    match s.cascade {
        ShotCascade::Piercing(next) => {
            lemma_pierce_chain(*next, to, d, tp);
            let c = pierce_chain(s);
            let rest = pierce_chain(*next);
            assert(c == seq![s] + rest);
            assert forall|i: int| 0 <= i < c.len() - 1 implies #[trigger] shot_successors(
                true,
                to,
                d,
                c[i],
                tp,
            ) == seq![shoot(to, d, c[i + 1], tp)] by {
                if i == 0 {
                    assert(c[1] == rest[0]);
                } else {
                    assert(c[i] == rest[i - 1]);
                    assert(c[i + 1] == rest[i]);
                }
            }
            assert(c.last() == rest.last());
        },
        _ => {},
    }
}

/// A split shot that hits spawns exactly two shots, from the hit tile, in
/// the two directions perpendicular to its own, opposite to each other.
pub proof fn lemma_split_in_two(s: Shot, to: Coords, d: CoordsDelta, tp: TimeProgression)
    requires
        s.cascade is SplitInTwo,
        four_directions().contains(d),
    ensures
        ({
            let next = shot_successors(true, to, d, s, tp);
            let a = next[0].action;
            let b = next[1].action;
            &&& next.len() == 2
            &&& a is Shoot && b is Shoot
            &&& a->Shoot_from == to && b->Shoot_from == to
            &&& four_directions().contains(a->Shoot_direction)
            &&& four_directions().contains(b->Shoot_direction)
            &&& a->Shoot_direction.dx * d.dx + a->Shoot_direction.dy * d.dy == 0
            &&& b->Shoot_direction.dx == -a->Shoot_direction.dx
            &&& b->Shoot_direction.dy == -a->Shoot_direction.dy
        }),
{
    let next = shot_successors(true, to, d, s, tp);
    let side = side_of(d);
    if d == four_directions()[0] || d == four_directions()[2] {
        assert(four_directions()[1] == side || four_directions()[3] == side);
        assert(four_directions()[1] == opposite(side) || four_directions()[3] == opposite(side));
    } else {
        assert(four_directions()[0] == side || four_directions()[2] == side);
        assert(four_directions()[0] == opposite(side) || four_directions()[2] == opposite(side));
    }
}

/// Whether `d` is one of the four unit directions.
fn is_direction(d: CoordsDelta) -> (r: bool)
    ensures
        r == four_directions().contains(d),
{
    let r = d == CoordsDelta::up() || d == CoordsDelta::right() || d == CoordsDelta::down() || d
        == CoordsDelta::left();
    proof {
        if four_directions().contains(d) {
            let i = choose|i: int| 0 <= i < 4 && four_directions()[i] == d;
        }
        if r {
            if d == four_directions()[0] {
                assert(four_directions().contains(d));
            } else if d == four_directions()[1] {
                assert(four_directions().contains(d));
            } else if d == four_directions()[2] {
                assert(four_directions().contains(d));
            } else {
                assert(four_directions()[3] == d);
            }
        }
    }
    r
}

/// The animation is over at `now`.
pub open spec fn done_at(a: Animation, now: u64) -> bool {
    now >= a.tp.start && now - a.tp.start >= a.tp.duration
}

/// What a shot ending its flight from `from` toward `d` does to the map:
/// nothing outside the map or through an empty tile, else it hits.
pub open spec fn shot_landed(g1: Grid<Tile>, g2: Grid<Tile>, from: Coords, d: CoordsDelta, shot: Shot) -> bool {
    let (x, y) = (from.x + d.dx, from.y + d.dy);
    if !has_xy(g1.dims, x, y) || g1.cell(at(x, y)).obj is None {
        g2 == g1
    } else {
        obj_replaced(g1, g2, at(x, y), after_hit(g1.cell(at(x, y)).obj, shot))
    }
}

/// The shots that follow a shot ending its flight (see `GameMap::resolve_shot`).
pub open spec fn shot_next(
    g1: Grid<Tile>,
    from: Coords,
    d: CoordsDelta,
    shot: Shot,
    duration: u64,
    now: u64,
) -> Seq<Animation> {
    let (x, y) = (from.x + d.dx, from.y + d.dy);
    if !has_xy(g1.dims, x, y) {
        Seq::empty()
    } else if g1.cell(at(x, y)).obj is None {
        shot_successors(false, at(x, y), d, shot, TimeProgression { start: now, duration })
    } else {
        shot_successors(
            true,
            at(x, y),
            d,
            shot,
            TimeProgression { start: now, duration: ANIMATION_MS },
        )
    }
}

/// What a finished animation does to the map: a moving or appearing object
/// lands on its tile (when on the map), a shot resolves; nothing else.
pub open spec fn landed(g1: Grid<Tile>, g2: Grid<Tile>, a: Animation) -> bool {
    match a.action {
        AnimationAction::Move { obj, to, .. } => if g1.dims.has(to) {
            obj_replaced(g1, g2, to, Some(obj))
        } else {
            g2 == g1
        },
        AnimationAction::Appear { obj, to } => if g1.dims.has(to) {
            obj_replaced(g1, g2, to, Some(obj))
        } else {
            g2 == g1
        },
        AnimationAction::Shoot { from, direction, shot } => if four_directions().contains(
            direction,
        ) {
            shot_landed(g1, g2, from, direction, shot)
        } else {
            g2 == g1
        },
        _ => g2 == g1,
    }
}

/// The shots that a finished animation spawns, on the map `g1` it met.
pub open spec fn spawned_by(g1: Grid<Tile>, a: Animation, now: u64) -> Seq<Animation> {
    match a.action {
        AnimationAction::Shoot { from, direction, shot } => if four_directions().contains(
            direction,
        ) {
            shot_next(g1, from, direction, shot, a.tp.duration, now)
        } else {
            Seq::empty()
        },
        _ => Seq::empty(),
    }
}

/// `anims[i]` is the first animation over at `now`.
pub open spec fn first_done(anims: Seq<Animation>, now: u64, i: int) -> bool {
    done_at(anims[i], now) && forall|k: int| 0 <= k < i ==> !done_at(#[trigger] anims[k], now)
}

/// The map before and after animation `a` is dealt with; `grant` when its end
/// also starts the enemy phase (every enemy gets one action).
pub open spec fn anim_step(g1: Grid<Tile>, g2: Grid<Tile>, a: Animation, now: u64, grant: bool) -> bool {
    if !done_at(a, now) {
        g2 == g1
    } else {
        exists|mid: Grid<Tile>|
            #[trigger] landed(g1, mid, a) && if grant {
                granted(mid, g2, true)
            } else {
                g2 == mid
            }
    }
}

/// The first `i` animations that are still running at `now`.
pub open spec fn kept_upto(anims: Seq<Animation>, now: u64, i: int) -> Seq<Animation>
    decreases i,
{
    if i <= 0 {
        Seq::empty()
    } else {
        kept_upto(anims, now, i - 1) + if done_at(anims[i - 1], now) {
            Seq::empty()
        } else {
            seq![anims[i - 1]]
        }
    }
}

/// The shots spawned by the first `i` animations, each on the map it met.
pub open spec fn spawned_upto(anims: Seq<Animation>, gs: Seq<Grid<Tile>>, now: u64, i: int) -> Seq<Animation>
    decreases i,
{
    if i <= 0 {
        Seq::empty()
    } else {
        spawned_upto(anims, gs, now, i - 1) + if done_at(anims[i - 1], now) {
            spawned_by(gs[i - 1], anims[i - 1], now)
        } else {
            Seq::empty()
        }
    }
}

/// The camera column after the first `i` animations: the target of the last
/// finished camera pan.
pub open spec fn camera_upto(anims: Seq<Animation>, now: u64, cam: i32, i: int) -> i32
    decreases i,
{
    if i <= 0 {
        cam
    } else {
        match anims[i - 1].action {
            AnimationAction::CameraMoveX { to, .. } => if done_at(anims[i - 1], now) {
                to
            } else {
                camera_upto(anims, now, cam, i - 1)
            },
            _ => camera_upto(anims, now, cam, i - 1),
        }
    }
}

/// `gs` lists the map from `g0` through each animation of `anims` to `gn`.
pub open spec fn anim_run(
    anims: Seq<Animation>,
    gs: Seq<Grid<Tile>>,
    now: u64,
    g0: Grid<Tile>,
    gn: Grid<Tile>,
    waits: bool,
) -> bool {
    &&& gs.len() == anims.len() + 1
    &&& gs[0] == g0
    &&& gs[anims.len() as int] == gn
    &&& forall|k: int| 0 <= k < anims.len() ==> #[trigger] step_at(anims, gs, now, waits, k)
}

/// The `k`-th step of `anim_run`.
pub open spec fn step_at(anims: Seq<Animation>, gs: Seq<Grid<Tile>>, now: u64, waits: bool, k: int) -> bool {
    anim_step(gs[k], gs[k + 1], anims[k], now, waits && first_done(anims, now, k))
}

/// The player phase ends once a running animation ends.
pub open spec fn waits_for_animation(g: Game) -> bool {
    g.phase == Phase::Player && g.end_player_phase_after_animation
}

/// What `Game::update_animations` does at `now`: the animations over end in
/// order, each once, changing the map; the running ones stay, followed by the
/// shots the finished ones spawned; the camera takes the last pan's target;
/// and the first one to end while the player phase waits for it starts the
/// enemy phase.
pub open spec fn animations_updated(old: Game, new: Game, now: u64) -> bool {
    let anims = old.animations@;
    let n = anims.len() as int;
    let waits = waits_for_animation(old);
    let fired = waits && some_done(anims, now);
    &&& new == (Game {
        map: new.map,
        phase: new.phase,
        end_player_phase_after_animation: new.end_player_phase_after_animation,
        end_player_phase_right_now: new.end_player_phase_right_now,
        camera_x: new.camera_x,
        animations: new.animations,
        ..old
    })
    &&& new.phase == if fired {
        Phase::Enemy
    } else {
        old.phase
    }
    &&& new.end_player_phase_after_animation == if fired {
        false
    } else {
        old.end_player_phase_after_animation
    }
    &&& new.end_player_phase_right_now == if fired {
        false
    } else {
        old.end_player_phase_right_now
    }
    &&& new.camera_x == camera_upto(anims, now, old.camera_x, n)
    &&& exists|gs: Seq<Grid<Tile>>|
        #[trigger] anim_run(anims, gs, now, old.map.grid, new.map.grid, waits)
            && new.animations@ == kept_upto(anims, now, n) + spawned_upto(anims, gs, now, n)
}

proof fn lemma_spawned_prefix(anims: Seq<Animation>, gs1: Seq<Grid<Tile>>, gs2: Seq<Grid<Tile>>, now: u64, i: int)
    requires
        i <= gs1.len(),
        i <= gs2.len(),
        forall|k: int| 0 <= k < i ==> gs1[k] == gs2[k],
    ensures
        spawned_upto(anims, gs1, now, i) == spawned_upto(anims, gs2, now, i),
    decreases i,
{
    if i > 0 {
        lemma_spawned_prefix(anims, gs1, gs2, now, i - 1);
    }
}

/// Some animation of `anims` is over at `now`.
pub open spec fn some_done(anims: Seq<Animation>, now: u64) -> bool {
    exists|i: int|
        0 <= i < anims.len() && now >= (#[trigger] anims[i]).tp.start && now - anims[i].tp.start
            >= anims[i].tp.duration
}

impl Game {
    /// Ends the animations that are over at `now`, each once: a moving or
    /// appearing object lands on its tile, the camera takes its position, a
    /// shot resolves (see `GameMap::resolve_shot`) and its successors join the
    /// animations. The first one that ends while the player phase waits for
    /// it starts the enemy phase.
    pub fn update_animations(&mut self, now: u64, sounds: &mut Vec<SoundEffect>)
        requires
            old(self).wf(),
        ensures
            final(self).wf(),
            animations_updated(*old(self), *final(self), now),
    {
        let mut anims: Vec<Animation> = Vec::new();
        core::mem::swap(&mut anims, &mut self.animations);
        let ghost old_anims = anims@;
        let ghost g_start = self.map.grid;
        let ghost mut gs: Seq<Grid<Tile>> = seq![g_start];
        let mut kept: Vec<Animation> = Vec::new();
        let mut spawned: Vec<Animation> = Vec::new();
        let mut any_done = false;
        let ghost waits = old(self).phase == Phase::Player && old(self).end_player_phase_after_animation;
        let mut i: usize = 0;
        while i < anims.len()
            invariant
                self.wf(),
                anims@ == old_anims,
                old_anims == old(self).animations@,
                g_start == old(self).map.grid,
                waits == (old(self).phase == Phase::Player && old(self).end_player_phase_after_animation),
                0 <= i <= anims@.len(),
                *self == (Game {
                    map: self.map,
                    phase: self.phase,
                    end_player_phase_after_animation: self.end_player_phase_after_animation,
                    end_player_phase_right_now: self.end_player_phase_right_now,
                    camera_x: self.camera_x,
                    animations: self.animations,
                    ..*old(self)
                }),
                any_done == exists|j: int| 0 <= j < i && #[trigger] done_at(anims@[j], now),
                !any_done || !waits ==> self.phase == old(self).phase
                    && self.end_player_phase_after_animation
                    == old(self).end_player_phase_after_animation
                    && self.end_player_phase_right_now == old(self).end_player_phase_right_now,
                any_done && waits ==> self.phase == Phase::Enemy
                    && !self.end_player_phase_after_animation && !self.end_player_phase_right_now,
                gs.len() == i + 1,
                gs[0] == g_start,
                gs[i as int] == self.map.grid,
                forall|k: int| 0 <= k < i ==> #[trigger] step_at(anims@, gs, now, waits, k),
                kept@ == kept_upto(anims@, now, i as int),
                spawned@ == spawned_upto(anims@, gs, now, i as int),
                self.camera_x == camera_upto(anims@, now, old(self).camera_x, i as int),
            decreases anims@.len() - i,
        {
            let a = &anims[i];
            let ghost g_i = self.map.grid;
            let ghost gs_before = gs;
            let ghost spawned_before = spawned@;
            if a.tp.is_done(now) {
                assert(done_at(anims@[i as int], now));
                proof {
                    if !any_done {
                        assert(first_done(anims@, now, i as int));
                    } else {
                        let j = choose|j: int| 0 <= j < i && #[trigger] done_at(anims@[j], now);
                        assert(!first_done(anims@, now, i as int));
                    }
                }
                match &a.action {
                    AnimationAction::Move { obj, to, .. } => {
                        if self.map.grid.dims.contains(*to) {
                            let t = *self.map.grid.get(*to).unwrap();
                            self.map.grid.set(*to, Tile { ground: t.ground, obj: Some(*obj) });
                        }
                    },
                    AnimationAction::Appear { obj, to } => {
                        if self.map.grid.dims.contains(*to) {
                            let t = *self.map.grid.get(*to).unwrap();
                            self.map.grid.set(*to, Tile { ground: t.ground, obj: Some(*obj) });
                        }
                    },
                    AnimationAction::CameraMoveX { to, .. } => {
                        self.camera_x = *to;
                    },
                    AnimationAction::Disappear { .. } => {},
                    AnimationAction::Shoot { from, direction, shot } => {
                        if is_direction(*direction) {
                            let mut next = self.map.resolve_shot(
                                *from,
                                *direction,
                                shot,
                                a.tp.duration,
                                now,
                                sounds,
                            );
                            spawned.append(&mut next);
                        }
                    },
                }
                let ghost mid = self.map.grid;
                assert(landed(g_i, mid, anims@[i as int]));
                assert(spawned@ == spawned_before + spawned_by(g_i, anims@[i as int], now));
                if self.phase == Phase::Player && self.end_player_phase_after_animation {
                    self.enter_enemy_phase();
                }
                proof {
                    gs = gs.push(self.map.grid);
                    assert(anim_step(
                        g_i,
                        self.map.grid,
                        anims@[i as int],
                        now,
                        waits && first_done(anims@, now, i as int),
                    ));
                }
                any_done = true;
            } else {
                let ghost before = kept@;
                kept.push(a.duplicate());
                assert(kept@ =~= before.push(anims@[i as int]));
                proof {
                    gs = gs.push(self.map.grid);
                }
            }
            proof {
                assert forall|k: int| 0 <= k < i + 1 implies #[trigger] step_at(
                    anims@,
                    gs,
                    now,
                    waits,
                    k,
                ) by {
                    if k < i {
                        assert(step_at(anims@, gs_before, now, waits, k));
                        assert(gs[k] == gs_before[k] && gs[k + 1] == gs_before[k + 1]);
                    }
                }
                lemma_spawned_prefix(anims@, gs_before, gs, now, i as int);
                assert(gs[i as int] == g_i);
                assert(spawned_upto(anims@, gs, now, i as int) + Seq::<Animation>::empty()
                    =~= spawned_upto(anims@, gs, now, i as int));
                assert(kept_upto(anims@, now, i as int) + Seq::<Animation>::empty() =~= kept_upto(
                    anims@,
                    now,
                    i as int,
                ));
            }
            i = i + 1;
        }
        proof {
            if some_done(old_anims, now) {
                let j = choose|j: int|
                    0 <= j < old_anims.len() && now >= (#[trigger] old_anims[j]).tp.start && now
                        - old_anims[j].tp.start >= old_anims[j].tp.duration;
                assert(done_at(anims@[j], now));
            }
            if any_done {
                let j = choose|j: int| 0 <= j < i && #[trigger] done_at(anims@[j], now);
                assert(old_anims[j] == anims@[j]);
            }
        }
        kept.append(&mut spawned);
        self.animations = kept;
        proof {
            assert(anim_run(old_anims, gs, now, g_start, self.map.grid, waits));
            assert(any_done == some_done(old_anims, now));
        }
    }

    /// One step of a multi-step caravan move: the caravan starts moving one
    /// tile `forward` along the path; the player phase ends after the last one.
    fn caravan_step(&mut self, now: u64, sounds: &mut Vec<SoundEffect>)
        requires
            old(self).wf(),
            old(self).caravan_moves_left > 0,
        ensures
            final(self).wf(),
            caravan_stepped(*old(self), *final(self), now),
    {
        let found = self.map.caravan_coords_and_tile();
        let (c, t) = match found {
            Some(ct) => ct,
            None => {
                self.caravan_moves_left = 0;
                return ;
            },
        };
        let p = match t.ground {
            Ground::Path(p) => p,
            _ => {
                self.caravan_moves_left = 0;
                return ;
            },
        };
        let x: i64 = c.x as i64 + p.forward.dx as i64;
        let y: i64 = c.y as i64 + p.forward.dy as i64;
        if !(0 <= x && x < self.map.grid.dims.w as i64 && 0 <= y && y < self.map.grid.dims.h as i64) {
            self.caravan_moves_left = 0;
            return ;
        }
        let dst = Coords { x: x as i32, y: y as i32 };
        self.map.grid.set(c, Tile { ground: t.ground, obj: None });
        self.animations.push(
            Animation {
                action: AnimationAction::Move { obj: Obj::Caravan, from: c, to: dst },
                tp: TimeProgression::new(now, ANIMATION_MS),
            },
        );
        sounds.push(SoundEffect::Step);
        self.distance_traveled = sat_add(p.distance, 1);
        self.caravan_moves_left = self.caravan_moves_left - 1;
        if self.caravan_moves_left == 0 {
            self.end_player_phase_after_animation = true;
        }
    }

    /// Advances the game at time `now`, once per frame. Animations that are
    /// over end first; when none is running, the pending caravan steps play,
    /// then a requested end of the player phase happens, then one enemy or one
    /// tower plays, or its phase ends. `spawn_x` is the column where a new
    /// enemy may appear at the end of the enemy phase (the right edge of the
    /// view).
    pub fn tick(&mut self, now: u64, spawn_x: i32, sounds: &mut Vec<SoundEffect>) -> (r: Result<(), WorldError>)
        requires
            old(self).wf(),
        ensures
            old(self).animations@.len() > 0 ==> r is Ok && animations_updated(
                *old(self),
                *final(self),
                now,
            ),
            old(self).animations@.len() == 0 && old(self).phase == Phase::Player && old(self).caravan_moves_left > 0 ==> r is Ok && caravan_stepped(*old(self), *final(self), now),
            old(self).animations@.len() == 0 && old(self).phase == Phase::Player && old(self).caravan_moves_left <= 0 && old(self).end_player_phase_right_now ==> r is Ok && *final(self) == (Game {
                map: final(self).map,
                phase: Phase::Enemy,
                end_player_phase_after_animation: false,
                end_player_phase_right_now: false,
                ..*old(self)
            }) && granted(old(self).map.grid, final(self).map.grid, true),
            old(self).animations@.len() == 0 && old(self).phase == Phase::Player && old(self).caravan_moves_left <= 0 && !old(self).end_player_phase_right_now ==> r is Ok && *final(self) == *old(self),
            old(self).animations@.len() == 0 && old(self).phase == Phase::GameOver ==> r is Ok
                && *final(self) == *old(self),
            old(self).animations@.len() == 0 && old(self).phase == Phase::Enemy
                && some_enemy_pending(old(self).map.grid) ==> r is Ok && exists|c: Coords|
                #[trigger] enemy_step_post(*old(self), *final(self), Some(c), now),
            old(self).animations@.len() == 0 && old(self).phase == Phase::Enemy
                && !some_enemy_pending(old(self).map.grid) ==> enemy_phase_finished(
                *old(self),
                *final(self),
                r,
                spawn_x,
            ),
            old(self).animations@.len() == 0 && old(self).phase == Phase::Tower ==> r is Ok,
            old(self).animations@.len() == 0 && old(self).phase == Phase::Tower
                && some_tower_pending(old(self).map.grid) ==> exists|c: Coords|
                #[trigger] tower_step_post(*old(self), *final(self), Some(c), now),
            old(self).animations@.len() == 0 && old(self).phase == Phase::Tower
                && !some_tower_pending(old(self).map.grid) ==> tower_step_post(
                *old(self),
                *final(self),
                None,
                now,
            ),
            final(self).wf(),
            old(self).phase == Phase::GameOver ==> final(self).phase == Phase::GameOver,
            final(self).phase == Phase::Enemy && old(self).phase != Phase::Enemy ==> old(self).phase
                == Phase::Player && (old(self).end_player_phase_after_animation || old(self).end_player_phase_right_now),
            old(self).phase == Phase::Player && old(self).end_player_phase_after_animation
                && some_done(old(self).animations@, now) ==> final(self).phase == Phase::Enemy,
            old(self).phase == Phase::Player && old(self).end_player_phase_right_now && old(self).animations@.len() == 0 && old(self).caravan_moves_left <= 0 ==> final(self).phase
                == Phase::Enemy,
            final(self).phase == Phase::Tower && old(self).phase != Phase::Tower ==> old(self).phase
                == Phase::Enemy && old(self).animations@.len() == 0 && !some_enemy_pending(
                old(self).map.grid,
            ),
            final(self).phase == Phase::Player && old(self).phase != Phase::Player ==> old(self).phase
                == Phase::Tower && old(self).animations@.len() == 0 && !some_tower_pending(
                old(self).map.grid,
            ) && has_caravan(old(self).map.grid) && final(self).turn_counter == clamp32(
                old(self).turn_counter + 1,
            ),
            final(self).phase == Phase::GameOver && old(self).phase != Phase::GameOver ==> old(self).phase == Phase::Tower && old(self).animations@.len() == 0 && !some_tower_pending(
                old(self).map.grid,
            ) && !has_caravan(old(self).map.grid),
    {
        if self.animations.len() > 0 {
            self.update_animations(now, sounds);
            return Ok(());
        }
        if self.phase == Phase::Player && self.caravan_moves_left > 0 {
            self.caravan_step(now, sounds);
            return Ok(());
        }
        if self.phase == Phase::Player && self.end_player_phase_right_now {
            self.enter_enemy_phase();
            return Ok(());
        }
        match self.phase {
            Phase::Enemy => match self.enemy_step(now, sounds) {
                Some(_) => Ok(()),
                None => self.finish_enemy_phase(spawn_x),
            },
            Phase::Tower => {
                self.tower_step(now, sounds);
                Ok(())
            },
            _ => Ok(()),
        }
    }
}

/// The caravan at `c` stands on a path tile whose `forward` step leads to an
/// empty tile of the map.
pub open spec fn caravan_can_step(g: Grid<Tile>, c: Coords) -> bool {
    let f = forward_of(g.cell(c).ground);
    &&& g.cell(c).ground is Path
    &&& has_xy(g.dims, c.x + f.dx, c.y + f.dy)
    &&& g.cell(at(c.x + f.dx, c.y + f.dy)).obj is None
}

/// `g2` holds `g1` as its left part.
pub open spec fn extends(g1: Grid<Tile>, g2: Grid<Tile>) -> bool {
    &&& g2.dims.w >= g1.dims.w
    &&& (g1.dims.w == 0 || g2.dims.h == g1.dims.h)
    &&& forall|c: Coords| #[trigger] g1.dims.has(c) ==> g2.cell(c) == g1.cell(c)
}

impl Game {
    /// The caravan starts moving one tile `forward`, onto an empty tile; the
    /// player phase ends when it arrives. Returns `false`, with no change,
    /// when the player may not act or the caravan cannot move.
    pub fn move_caravan_once(&mut self, now: u64, sounds: &mut Vec<SoundEffect>) -> (moved: bool)
        requires
            old(self).wf(),
        ensures
            final(self).wf(),
            !moved ==> *final(self) == *old(self),
            moved == (old(self).player_may_act() && exists|c: Coords|
                #[trigger] is_first_caravan(old(self).map.grid, c) && caravan_can_step(
                    old(self).map.grid,
                    c,
                )),
            moved ==> exists|c: Coords|
                #[trigger] is_first_caravan(old(self).map.grid, c) && {
                    let g = old(self).map.grid;
                    let f = forward_of(g.cell(c).ground);
                    &&& obj_replaced(g, final(self).map.grid, c, None)
                    &&& final(self).animations@ == seq![
                        Animation {
                            action: AnimationAction::Move {
                                obj: Obj::Caravan,
                                from: c,
                                to: at(c.x + f.dx, c.y + f.dy),
                            },
                            tp: TimeProgression { start: now, duration: ANIMATION_MS },
                        },
                    ]
                    &&& final(self).distance_traveled == clamp32(path_distance(g.cell(c).ground) + 1)
                    &&& final(self).end_player_phase_after_animation
                    &&& final(self).phase == old(self).phase
                    &&& final(self).crystal_amount == old(self).crystal_amount
                },
    {
        if !(self.phase == Phase::Player && self.animations.len() == 0) {
            return false;
        }
        let ghost g = self.map.grid;
        let (c, t) = match self.map.caravan_coords_and_tile() {
            Some(ct) => ct,
            None => {
                proof {
                    assert forall|c2: Coords| !#[trigger] is_first_caravan(g, c2) by {
                        if is_first_caravan(g, c2) {
                            assert(g.cell(c2).obj == Some(Obj::Caravan));
                        }
                    }
                }
                return false;
            },
        };
        proof {
            assert forall|c2: Coords| #[trigger] is_first_caravan(g, c2) implies c2 == c by {
                lemma_first_caravan_unique(g, c, c2);
            }
        }
        let p = match t.ground {
            Ground::Path(p) => p,
            _ => {
                return false;
            },
        };
        let x: i64 = c.x as i64 + p.forward.dx as i64;
        let y: i64 = c.y as i64 + p.forward.dy as i64;
        if !(0 <= x && x < self.map.grid.dims.w as i64 && 0 <= y && y < self.map.grid.dims.h as i64) {
            return false;
        }
        let dst = Coords { x: x as i32, y: y as i32 };
        assert(dst == at(c.x + p.forward.dx, c.y + p.forward.dy));
        if self.map.grid.get(dst).unwrap().obj.is_some() {
            return false;
        }
        assert(caravan_can_step(g, c));
        self.map.grid.set(c, Tile { ground: t.ground, obj: None });
        let anim = Animation {
            action: AnimationAction::Move { obj: Obj::Caravan, from: c, to: dst },
            tp: TimeProgression::new(now, ANIMATION_MS),
        };
        let ghost a = anim;
        self.animations.push(anim);
        assert(self.animations@ =~= seq![a]);
        sounds.push(SoundEffect::Step);
        self.distance_traveled = sat_add(p.distance, 1);
        self.end_player_phase_after_animation = true;
        assert(is_first_caravan(old(self).map.grid, c));
        true
    }

    /// The camera starts panning one column to the right; the player phase
    /// ends when it is done.
    pub fn pan_camera(&mut self, now: u64) -> (panned: bool)
        requires
            old(self).wf(),
        ensures
            final(self).wf(),
            panned == old(self).player_may_act(),
            !panned ==> *final(self) == *old(self),
            panned ==> final(self).end_player_phase_after_animation && final(self).map == old(self).map && final(self).animations@.len() == 1 && final(self).animations@[0].action
                == (AnimationAction::CameraMoveX {
                    from: old(self).camera_x,
                    to: clamp32(old(self).camera_x + 1) as i32,
                }),
    {
        if !(self.phase == Phase::Player && self.animations.len() == 0) {
            return false;
        }
        self.animations.push(
            Animation {
                action: AnimationAction::CameraMoveX {
                    from: self.camera_x,
                    to: sat_add(self.camera_x, 1),
                },
                tp: TimeProgression::new(now, ANIMATION_MS),
            },
        );
        self.end_player_phase_after_animation = true;
        true
    }

    /// Generates chunks on the right until the map is at least `min_width` wide.
    pub fn extend_world_to(&mut self, min_width: i32) -> (r: Result<(), WorldError>)
        requires
            old(self).wf(),
        ensures
            final(self).wf(),
            r is Ok ==> final(self).map.grid.dims.w >= min_width,
            extends(old(self).map.grid, final(self).map.grid),
            *final(self) == (Game { map: final(self).map, ..*old(self) }),
            old(self).map.grid.dims.w >= min_width ==> r is Ok && *final(self) == *old(self),
            old(self).map.grid.dims.w < min_width && old(self).map.grid.dims.w > i32::MAX
                - crate::chunk::CHUNK_SIDE ==> r == Err::<(), WorldError>(WorldError::TooLarge)
                && *final(self) == *old(self),
            old(self).map.grid.dims.w < min_width && old(self).map.grid.dims.w <= i32::MAX
                - crate::chunk::CHUNK_SIDE && old(self).map.grid.dims.w > 0
                && crate::map::right_edge_join(old(self).map.grid) is None ==> r == Err::<
                (),
                WorldError,
            >(WorldError::NoPathOnRightEdge) && *final(self) == *old(self),
            old(self).map.grid.dims.w < min_width && old(self).map.grid.dims.w <= i32::MAX
                - crate::chunk::CHUNK_SIDE && crate::map::right_edge_join(old(self).map.grid) is Some
                && crate::map::right_edge_join(old(self).map.grid).unwrap().1 > i32::MAX
                - crate::chunk::MAX_PATH_LEN - 1 ==> r == Err::<(), WorldError>(WorldError::TooLarge)
                && *final(self) == *old(self),
            r == Err::<(), WorldError>(WorldError::NoPathOnRightEdge) ==> *final(self) == *old(self),
    {
        let ghost g0 = self.map.grid;
        if self.map.grid.dims.w >= min_width {
            return Ok(());
        }
        match self.map.generate_chunk_on_the_right() {
            Ok(()) => {
                proof {
                    assert forall|c: Coords| #[trigger] g0.dims.has(c) implies self.map.grid.cell(c)
                        == g0.cell(c) by {
                        assert(self.map.grid.dims.has(c));
                    }
                    crate::map::lemma_joined_chunk_has_exit(g0, self.map.grid);
                }
            },
            Err(e) => {
                return Err(e);
            },
        }
        while self.map.grid.dims.w < min_width
            invariant
                *self == (Game { map: self.map, ..*old(self) }),
                crate::map::right_edge_join(self.map.grid) is Some,
                self.map.grid.dims.w > g0.dims.w,
                g0.dims.w <= i32::MAX - crate::chunk::CHUNK_SIDE,
                g0.dims.w > 0 ==> crate::map::right_edge_join(g0) is Some,
                crate::map::right_edge_join(g0) is Some ==> crate::map::right_edge_join(g0).unwrap().1
                    <= i32::MAX - crate::chunk::MAX_PATH_LEN - 1,
                self.wf(),
                extends(g0, self.map.grid),
                self.phase == old(self).phase,
                self.animations == old(self).animations,
                g0 == old(self).map.grid,
                g0.wf(),
            decreases if self.map.grid.dims.w < min_width {
                min_width - self.map.grid.dims.w
            } else {
                0
            },
        {
            let ghost before = self.map.grid;
            match self.map.generate_chunk_on_the_right() {
                Ok(()) => {
                    proof {
                        assert forall|c: Coords| #[trigger] g0.dims.has(c) implies self.map.grid.cell(c)
                            == g0.cell(c) by {
                            assert(before.dims.has(c));
                            assert(before.cell(c) == g0.cell(c));
                        }
                        crate::map::lemma_joined_chunk_has_exit(before, self.map.grid);
                    }
                },
                Err(e) => {
                    return Err(e);
                },
            }
        }
        Ok(())
    }
}

impl Game {
    /// Sends the caravan to `dst`, one of `caravan_destinations`: it will move
    /// along the path, one tile per step, and the player phase ends when it
    /// arrives. Returns `false`, with no change, for any other tile or when
    /// the player may not act.
    pub fn start_caravan_move(&mut self, dst: Coords) -> (started: bool)
        requires
            old(self).wf(),
        ensures
            final(self).wf(),
            !started ==> *final(self) == *old(self),
            started ==> old(self).player_may_act() && final(self).caravan_moves_left > 0
                && *final(self) == (Game { caravan_moves_left: final(self).caravan_moves_left, ..*old(self) }),
            started == (old(self).player_may_act() && crate::map::destinations(
                old(self).map.grid,
            ).contains(dst) && old(self).map.grid.cell(dst).ground is Path
                && crate::map::caravan_distance(old(self).map.grid) is Some && 0 < path_distance(
                old(self).map.grid.cell(dst).ground,
            ) - crate::map::caravan_distance(old(self).map.grid).unwrap() <= i32::MAX),
            started ==> final(self).caravan_moves_left == path_distance(
                old(self).map.grid.cell(dst).ground,
            ) - crate::map::caravan_distance(old(self).map.grid).unwrap(),
    {
        if !(self.phase == Phase::Player && self.animations.len() == 0) {
            return false;
        }
        let dests = self.map.caravan_destinations();
        let mut found = false;
        let mut i: usize = 0;
        while i < dests.len()
            invariant
                0 <= i <= dests@.len(),
                found == exists|j: int| 0 <= j < i && dests@[j] == dst,
                *self == *old(self),
                old(self).player_may_act(),
                old(self).wf(),
                dests@ == crate::map::destinations(old(self).map.grid),
            decreases dests@.len() - i,
        {
            if dests[i] == dst {
                found = true;
            }
            i = i + 1;
        }
        if !found {
            proof {
                if dests@.contains(dst) {
                    let j = choose|j: int| 0 <= j < dests@.len() && dests@[j] == dst;
                    assert(0 <= j < i && dests@[j] == dst);
                }
            }
            return false;
        }
        proof {
            let j = choose|j: int| 0 <= j < i && dests@[j] == dst;
            assert(dests@[j] == dst);
            assert(dests@.contains(dst));
        }
        let (cc, ct) = match self.map.caravan_coords_and_tile() {
            Some(x) => x,
            None => {
                assert(crate::map::caravan_distance(self.map.grid) is None);
                return false;
            },
        };
        assert(crate::map::first_caravan(self.map.grid) == Some(cc));
        let (src_dist, dst_dist) = match (ct.ground, self.map.grid.get(dst).unwrap().ground) {
            (Ground::Path(p), Ground::Path(q)) => {
                assert(crate::map::caravan_distance(self.map.grid) == Some(p.distance));
                (p.distance, q.distance)
            },
            _ => {
                return false;
            },
        };
        let moves: i64 = dst_dist as i64 - src_dist as i64;
        if moves <= 0 || moves > i32::MAX as i64 {
            return false;
        }
        self.caravan_moves_left = moves as i32;
        true
    }
}

} // verus!
