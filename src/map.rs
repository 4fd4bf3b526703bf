use vstd::prelude::*;

use crate::chunk::{CHUNK_SIDE, Chunk, MAX_PATH_LEN, accepted, entry_of, is_chunk_path, valid_chunk};
use crate::coords::{Coords, CoordsDelta, Dimensions, Grid, at, dir_right};
use crate::draw::{Color, rgba};
use crate::tile::{Ground, Obj, Path, Shot, Tile, clamp32, forward_of, path_dist_is, sat_add, sat_sub};

verus! {

/// The whole world: chunks joined left to right.
pub struct GameMap {
    pub grid: Grid<Tile>,
}

/// Why the world could not grow.
#[derive(Clone, Copy, PartialEq, Eq, Structural, Debug)]
pub enum WorldError {
    /// The rightmost column holds no path tile that leads out to the right.
    NoPathOnRightEdge,
    /// The map is as wide, or its path as long, as integers allow.
    TooLarge,
    /// No acceptable chunk came out of the generator's tries.
    GenerationExhausted,
    /// A column that should hold a path tile holds none (or is outside the map).
    NoPathOnColumn,
}

/// `o` after taking `d` damages: gone when its hit points drop to 0 or below.
/// Objects without hit points are left as they are.
pub open spec fn damaged(o: Obj, d: int) -> Option<Obj> {
    match o {
        Obj::Enemy { actions, hp, fire, variant } => {
            let h = clamp32(hp - d);
            if h <= 0 {
                None
            } else {
                Some(Obj::Enemy { actions, hp: h as i32, fire, variant })
            }
        },
        Obj::Tower { actions, hp, fire, variant } => {
            let h = clamp32(hp - d);
            if h <= 0 {
                None
            } else {
                Some(Obj::Tower { actions, hp: h as i32, fire, variant })
            }
        },
        _ => Some(o),
    }
}

/// `o` with `f` more fire stacks, when it can burn.
pub open spec fn with_fire(o: Obj, f: int) -> Obj {
    match o {
        Obj::Enemy { actions, hp, fire, variant } => Obj::Enemy {
            actions,
            hp,
            fire: clamp32(fire + f) as i32,
            variant,
        },
        Obj::Tower { actions, hp, fire, variant } => Obj::Tower {
            actions,
            hp,
            fire: clamp32(fire + f) as i32,
            variant,
        },
        _ => o,
    }
}

/// `o` with `a` more pending actions, when it can act.
pub open spec fn with_actions(o: Obj, a: int) -> Obj {
    match o {
        Obj::Enemy { actions, hp, fire, variant } => Obj::Enemy {
            actions: clamp32(actions + a) as i32,
            hp,
            fire,
            variant,
        },
        Obj::Tower { actions, hp, fire, variant } => Obj::Tower {
            actions: clamp32(actions + a) as i32,
            hp,
            fire,
            variant,
        },
        _ => o,
    }
}

pub open spec fn is_fighter(o: Obj) -> bool {
    o is Enemy || o is Tower
}

/// What a shot leaves of the object it hits: damages first, then fire, then
/// extra actions.
pub open spec fn after_hit(o: Option<Obj>, s: Shot) -> Option<Obj> {
    match o {
        None => None,
        Some(o0) => match damaged(o0, s.damages as int) {
            None => None,
            Some(o1) => {
                let o2 = if s.fire > 0 {
                    with_fire(o1, s.fire as int)
                } else {
                    o1
                };
                Some(
                    if s.additional_actions > 0 {
                        with_actions(o2, s.additional_actions as int)
                    } else {
                        o2
                    },
                )
            },
        },
    }
}

pub open spec fn damage_color(d: int) -> Color {
    if d < 0 {
        rgba(255, 150, 150, 255)
    } else {
        rgba(255, 0, 0, 255)
    }
}

/// The color that the hit object flashes with: the one of the last effect
/// applied to it.
pub open spec fn hit_flash(o: Option<Obj>, s: Shot) -> Option<Color> {
    match o {
        Some(o0) => if is_fighter(o0) {
            if s.additional_actions > 0 && damaged(o0, s.damages as int).is_some() {
                Some(rgba(255, 255, 0, 255))
            } else if s.fire > 0 && damaged(o0, s.damages as int).is_some() {
                Some(rgba(255, 180, 0, 255))
            } else {
                Some(damage_color(s.damages as int))
            }
        } else {
            None
        },
        None => None,
    }
}

/// `g2` is `g1` with the object at `c` replaced by `obj`.
pub open spec fn obj_replaced(g1: Grid<Tile>, g2: Grid<Tile>, c: Coords, obj: Option<Obj>) -> bool {
    &&& g2.wf()
    &&& g2.dims == g1.dims
    &&& g2.cell(c) == (Tile { ground: g1.cell(c).ground, obj })
    &&& forall|c2: Coords| g2.dims.has(c2) && c2 != c ==> #[trigger] g2.cell(c2) == g1.cell(c2)
}

/// `c` holds the first caravan of `g` in row-major order.
pub open spec fn is_first_caravan(g: Grid<Tile>, c: Coords) -> bool {
    &&& g.dims.has(c)
    &&& g.cell(c).obj == Some(Obj::Caravan)
    &&& forall|c2: Coords|
        g.dims.has(c2) && rank(g, c2) < rank(g, c) ==> (#[trigger] g.cell(c2)).obj != Some(
            Obj::Caravan,
        )
}

/// The first caravan of `g` in row-major order, if there is one.
pub open spec fn first_caravan(g: Grid<Tile>) -> Option<Coords> {
    if exists|c: Coords| is_first_caravan(g, c) {
        Some(choose|c: Coords| is_first_caravan(g, c))
    } else {
        None
    }
}

/// The path distance of the caravan's tile, when the caravan stands on a path tile.
pub open spec fn caravan_distance(g: Grid<Tile>) -> Option<i32> {
    match first_caravan(g) {
        Some(c) => match g.cell(c).ground {
            Ground::Path(p) => Some(p.distance),
            _ => None,
        },
        None => None,
    }
}

/// The tiles met walking from `(x, y)` along `forward`, while on path
/// tiles of the map, for at most `fuel` tiles.
pub open spec fn walk_from(g: Grid<Tile>, x: int, y: int, fuel: nat) -> Seq<Coords>
    decreases fuel,
{
    if fuel == 0 || !(0 <= x < g.dims.w && 0 <= y < g.dims.h) || !(g.cell(at(x, y)).ground is Path) {
        Seq::empty()
    } else {
        let f = forward_of(g.cell(at(x, y)).ground);
        seq![at(x, y)] + walk_from(g, x + f.dx, y + f.dy, (fuel - 1) as nat)
    }
}

/// `y` is the first row of the leftmost column holding the path tile of distance 0.
pub open spec fn is_origin_row(g: Grid<Tile>, y: int) -> bool {
    &&& g.dims.w > 0
    &&& 0 <= y < g.dims.h
    &&& path_dist_is(g.cell(at(0, y)).ground, 0)
    &&& forall|y2: int| 0 <= y2 < y ==> !path_dist_is(#[trigger] g.cell(at(0, y2)).ground, 0)
}

pub open spec fn origin_row_spec(g: Grid<Tile>) -> Option<int> {
    if exists|y: int| is_origin_row(g, y) {
        Some(choose|y: int| is_origin_row(g, y))
    } else {
        None
    }
}

pub proof fn lemma_origin_row_unique(g: Grid<Tile>, a: int, b: int)
    requires
        is_origin_row(g, a),
        is_origin_row(g, b),
    ensures
        a == b,
{
    if a < b {
        assert(!path_dist_is(g.cell(at(0, a)).ground, 0));
    } else if b < a {
        assert(!path_dist_is(g.cell(at(0, b)).ground, 0));
    }
}

/// The path from its origin on the leftmost column, as `path_coords` walks it.
pub open spec fn path_walk(g: Grid<Tile>) -> Seq<Coords> {
    match origin_row_spec(g) {
        Some(y) => walk_from(g, 0, y, (g.dims.w * g.dims.h) as nat),
        None => Seq::empty(),
    }
}

/// The tiles of `s` that the caravan, at distance `cd`, may be sent to: those
/// farther along the path, up to the first one that holds another object.
pub open spec fn dests_in(g: Grid<Tile>, s: Seq<Coords>, cd: int) -> Seq<Coords>
    decreases s.len(),
{
    if s.len() == 0 {
        Seq::empty()
    } else {
        let t = g.cell(s[0]);
        let d = match t.ground {
            Ground::Path(p) => p.distance as int,
            _ => cd,
        };
        if d <= cd {
            dests_in(g, s.drop_first(), cd)
        } else if t.obj is Some && t.obj != Some(Obj::Caravan) {
            Seq::empty()
        } else {
            seq![s[0]] + dests_in(g, s.drop_first(), cd)
        }
    }
}

/// Where the caravan may be sent: nowhere without a path origin or a caravan
/// on the path.
pub open spec fn destinations(g: Grid<Tile>) -> Seq<Coords> {
    if origin_row_spec(g) is None {
        Seq::empty()
    } else {
        match caravan_distance(g) {
            Some(cd) => dests_in(g, path_walk(g), cd as int),
            None => Seq::empty(),
        }
    }
}

/// The row-major rank of a coordinate in a grid.
pub open spec fn rank(g: Grid<Tile>, c: Coords) -> int {
    g.dims.index_spec(c)
}

/// The first row (from the top) of the rightmost column whose path tile leads
/// out to the right, with its distance.
pub open spec fn exit_scan(g: Grid<Tile>, y: int) -> Option<(i32, i32)>
    decreases g.dims.h - y,
{
    if y < 0 || y >= g.dims.h {
        None
    } else {
        match g.cell(at(g.dims.w - 1, y)).ground {
            Ground::Path(p) => if p.forward == dir_right() {
                Some((y as i32, p.distance))
            } else {
                exit_scan(g, y + 1)
            },
            _ => exit_scan(g, y + 1),
        }
    }
}

pub open spec fn right_edge_join(g: Grid<Tile>) -> Option<(i32, i32)> {
    if g.dims.w <= 0 {
        None
    } else {
        exit_scan(g, 0)
    }
}

/// Both grounds are path tiles, the first one farther along the path.
pub open spec fn path_dist_gt(a: Ground, b: Ground) -> bool {
    match (a, b) {
        (Ground::Path(p), Ground::Path(q)) => p.distance > q.distance,
        _ => false,
    }
}

/// `g2` is `g1` with `right` joined on its right.
pub open spec fn joined(g1: Grid<Tile>, right: Grid<Tile>, g2: Grid<Tile>) -> bool {
    &&& g2.wf()
    &&& g2.dims.w == g1.dims.w + right.dims.w
    &&& g2.dims.h == right.dims.h
    &&& forall|c: Coords|
        #![trigger g2.cell(c)]
        g2.dims.has(c) ==> g2.cell(c) == if c.x < g1.dims.w {
            g1.cell(c)
        } else {
            right.cell(at(c.x - g1.dims.w, c.y as int))
        }
}

impl GameMap {
    /// The grid is well formed, and empty or of a chunk's height.
    pub open spec fn wf(self) -> bool {
        &&& self.grid.wf()
        &&& (self.grid.dims == (Dimensions { w: 0, h: 0 }) || self.grid.dims.h == CHUNK_SIDE)
    }

    pub fn new() -> (m: GameMap)
        ensures
            m.wf(),
            m.grid.dims == (Dimensions { w: 0, h: 0 }),
    {
        GameMap { grid: Grid::of_size_zero() }
    }

    /// Deals `damages` to the object at `coords`, which is destroyed when its
    /// hit points drop to 0 or below. Returns the color it flashes with, if it
    /// has hit points.
    pub fn inflict_damage_to_obj_at(&mut self, coords: Coords, damages: i32) -> (flash: Option<Color>)
        requires
            old(self).wf(),
        ensures
            final(self).wf(),
            !old(self).grid.dims.has(coords) ==> *final(self) == *old(self) && flash.is_none(),
            old(self).grid.dims.has(coords) ==> {
                let o = old(self).grid.cell(coords).obj;
                &&& obj_replaced(
                    old(self).grid,
                    final(self).grid,
                    coords,
                    match o {
                        Some(o0) => damaged(o0, damages as int),
                        None => None,
                    },
                )
                &&& flash == if o.is_some() && is_fighter(o.unwrap()) {
                    Some(damage_color(damages as int))
                } else {
                    None
                }
            },
    {
        let color = if damages < 0 {
            Color::rgb_u8(255, 150, 150)
        } else {
            Color::rgb_u8(255, 0, 0)
        };
        match self.grid.get(coords) {
            None => None,
            Some(tile) => {
                let tile = *tile;
                let (obj, flash) = match tile.obj {
                    Some(Obj::Enemy { actions, hp, fire, variant }) => {
                        let h = sat_sub(hp, damages);
                        if h <= 0 {
                            (None, Some(color))
                        } else {
                            (Some(Obj::Enemy { actions, hp: h, fire, variant }), Some(color))
                        }
                    },
                    Some(Obj::Tower { actions, hp, fire, variant }) => {
                        let h = sat_sub(hp, damages);
                        if h <= 0 {
                            (None, Some(color))
                        } else {
                            (Some(Obj::Tower { actions, hp: h, fire, variant }), Some(color))
                        }
                    },
                    other => (other, None),
                };
                self.grid.set(coords, Tile { ground: tile.ground, obj });
                flash
            },
        }
    }

    /// Applies a shot to the object at `coords`: damages, then fire stacks,
    /// then additional actions. Returns the color the object flashes with.
    pub fn shot_hits_obj_at(&mut self, coords: Coords, shot: &Shot) -> (flash: Option<Color>)
        requires
            old(self).wf(),
        ensures
            final(self).wf(),
            !old(self).grid.dims.has(coords) ==> *final(self) == *old(self) && flash.is_none(),
            old(self).grid.dims.has(coords) ==> {
                &&& obj_replaced(
                    old(self).grid,
                    final(self).grid,
                    coords,
                    after_hit(old(self).grid.cell(coords).obj, *shot),
                )
                &&& flash == hit_flash(old(self).grid.cell(coords).obj, *shot)
            },
    {
        let mut flash = self.inflict_damage_to_obj_at(coords, shot.damages);
        if !self.grid.dims.contains(coords) {
            return flash;
        }
        let tile = *self.grid.get(coords).unwrap();
        let mut obj = tile.obj;
        if shot.fire > 0 {
            match obj {
                Some(Obj::Enemy { actions, hp, fire, variant }) => {
                    obj = Some(Obj::Enemy { actions, hp, fire: sat_add(fire, shot.fire), variant });
                    flash = Some(Color::rgb_u8(255, 180, 0));
                },
                Some(Obj::Tower { actions, hp, fire, variant }) => {
                    obj = Some(Obj::Tower { actions, hp, fire: sat_add(fire, shot.fire), variant });
                    flash = Some(Color::rgb_u8(255, 180, 0));
                },
                _ => {},
            }
        }
        if shot.additional_actions > 0 {
            match obj {
                Some(Obj::Enemy { actions, hp, fire, variant }) => {
                    obj = Some(
                        Obj::Enemy {
                            actions: sat_add(actions, shot.additional_actions),
                            hp,
                            fire,
                            variant,
                        },
                    );
                    flash = Some(Color::rgb_u8(255, 255, 0));
                },
                Some(Obj::Tower { actions, hp, fire, variant }) => {
                    obj = Some(
                        Obj::Tower {
                            actions: sat_add(actions, shot.additional_actions),
                            hp,
                            fire,
                            variant,
                        },
                    );
                    flash = Some(Color::rgb_u8(255, 255, 0));
                },
                _ => {},
            }
        }
        self.grid.set(coords, Tile { ground: tile.ground, obj });
        flash
    }

    /// The first tile holding the caravan, in row-major order.
    pub fn caravan_coords_and_tile(&self) -> (r: Option<(Coords, Tile)>)
        requires
            self.wf(),
        ensures
            r matches Some((c, t)) ==> is_first_caravan(self.grid, c) && t == self.grid.cell(c)
                && first_caravan(self.grid) == Some(c),
            r is None ==> first_caravan(self.grid) is None,
            r.is_none() ==> forall|c: Coords|
                self.grid.dims.has(c) ==> (#[trigger] self.grid.cell(c)).obj != Some(Obj::Caravan),
    {
        let dims = self.grid.dims;
        let mut y: i32 = 0;
        while y < dims.h
            invariant
                self.wf(),
                dims == self.grid.dims,
                0 <= y <= dims.h,
                forall|c: Coords|
                    dims.has(c) && c.y < y ==> (#[trigger] self.grid.cell(c)).obj != Some(Obj::Caravan),
            decreases dims.h - y,
        {
            let mut x: i32 = 0;
            while x < dims.w
                invariant
                    self.wf(),
                    dims == self.grid.dims,
                    0 <= y < dims.h,
                    0 <= x <= dims.w,
                    forall|c: Coords|
                        dims.has(c) && (c.y < y || (c.y == y && c.x < x)) ==> (#[trigger] self.grid.cell(
                            c,
                        )).obj != Some(Obj::Caravan),
                decreases dims.w - x,
            {
                let c = Coords { x, y };
                let t = *self.grid.get(c).unwrap();
                if t.has_caravan() {
                    proof {
                        assert forall|c2: Coords|
                            dims.has(c2) && rank(self.grid, c2) < rank(self.grid, c) implies (
                            #[trigger] self.grid.cell(c2)).obj != Some(Obj::Caravan) by {
                            lemma_rank_order(dims, c2, c);
                        }
                        assert(is_first_caravan(self.grid, c));
                        let f = choose|f: Coords| is_first_caravan(self.grid, f);
                        lemma_first_caravan_unique(self.grid, c, f);
                    }
                    return Some((c, t));
                }
                x = x + 1;
            }
            y = y + 1;
        }
        proof {
            assert forall|c: Coords| !#[trigger] is_first_caravan(self.grid, c) by {
                if is_first_caravan(self.grid, c) {
                    assert(self.grid.cell(c).obj == Some(Obj::Caravan));
                }
            }
        }
        None
    }

    /// The path distance of the tile under the caravan, if there is a caravan
    /// and it stands on a path tile.
    pub fn caradan_path_dist(&self) -> (r: Option<i32>)
        requires
            self.wf(),
        ensures
            r == caravan_distance(self.grid),
    {
        match self.caravan_coords_and_tile() {
            Some((_coords, tile)) => match tile.path() {
                Some(path) => Some(path.distance),
                None => None,
            },
            None => None,
        }
    }

    /// The path tiles from the tile of distance 0 on the leftmost column,
    /// following `forward`, up to the first tile that is not a path tile (or
    /// as many tiles as the grid has).
    pub fn path_coords(&self) -> (r: Vec<Coords>)
        requires
            self.wf(),
            self.grid.dims.w > 0,
            exists|y: int|
                0 <= y < self.grid.dims.h && path_dist_is(#[trigger] self.grid.cell(at(0, y)).ground, 0),
        ensures
            r@.len() >= 1,
            r@[0].x == 0,
            path_dist_is(self.grid.cell(r@[0]).ground, 0),
            forall|y: int| 0 <= y < r@[0].y ==> !path_dist_is(#[trigger] self.grid.cell(at(0, y)).ground, 0),
            forall|i: int|
                0 <= i < r@.len() ==> self.grid.dims.has(#[trigger] r@[i]) && self.grid.cell(
                    r@[i],
                ).ground is Path,
            forall|i: int|
                #![trigger r@[i + 1]]
                0 <= i < r@.len() - 1 ==> r@[i + 1] == at(
                    r@[i].x + forward_of(self.grid.cell(r@[i]).ground).dx,
                    r@[i].y + forward_of(self.grid.cell(r@[i]).ground).dy,
                ),
            r@.len() <= self.grid.dims.w * self.grid.dims.h,
            origin_row_spec(self.grid) == Some(r@[0].y as int),
            r@ == path_walk(self.grid),
    {
        let dims = self.grid.dims;
        let mut left_path_y: i32 = 0;
        while left_path_y < dims.h
            invariant
                self.wf(),
                dims == self.grid.dims,
                dims.w > 0,
                0 <= left_path_y <= dims.h,
                forall|y: int|
                    0 <= y < left_path_y ==> !path_dist_is(#[trigger] self.grid.cell(at(0, y)).ground, 0),
                exists|y: int|
                    left_path_y <= y < self.grid.dims.h && path_dist_is(
                        #[trigger] self.grid.cell(at(0, y)).ground,
                        0,
                    ),
            ensures
                0 <= left_path_y < dims.h,
                path_dist_is(self.grid.cell(at(0, left_path_y as int)).ground, 0),
                forall|y: int|
                    0 <= y < left_path_y ==> !path_dist_is(#[trigger] self.grid.cell(at(0, y)).ground, 0),
            decreases dims.h - left_path_y,
        {
            let c = Coords { x: 0, y: left_path_y };
            assert(c == at(0, left_path_y as int));
            let t = *self.grid.get(c).unwrap();
            match t.path() {
                Some(p) => {
                    if p.distance == 0 {
                        break ;
                    }
                },
                None => {},
            }
            left_path_y = left_path_y + 1;
        }
        let head0 = Coords { x: 0, y: left_path_y };
        assert(head0 == at(0, left_path_y as int));
        proof {
            assert(is_origin_row(self.grid, left_path_y as int));
            let o = choose|y: int| is_origin_row(self.grid, y);
            lemma_origin_row_unique(self.grid, o, left_path_y as int);
        }
        let mut path_coords: Vec<Coords> = Vec::new();
        path_coords.push(head0);
        let area: usize = self.grid.content.len();
        let ghost n: nat = (dims.w * dims.h) as nat;
        let mut head = head0;
        let mut path = self.grid.get(head).unwrap().path().unwrap();
        proof {
            assert(dims.w * dims.h >= 1) by (nonlinear_arith)
                requires
                    dims.w >= 1,
                    dims.h >= 1,
            ;
            assert(path_coords@ =~= seq![head0]);
        }
        loop
            invariant
                self.wf(),
                dims == self.grid.dims,
                area == dims.w * dims.h,
                path_coords@.len() >= 1,
                path_coords@[0] == head0,
                head == path_coords@.last(),
                dims.has(head),
                self.grid.cell(head).ground == Ground::Path(path),
                forall|i: int|
                    0 <= i < path_coords@.len() ==> dims.has(#[trigger] path_coords@[i])
                        && self.grid.cell(path_coords@[i]).ground is Path,
                forall|i: int|
                    #![trigger path_coords@[i + 1]]
                    0 <= i < path_coords@.len() - 1 ==> path_coords@[i + 1] == at(
                        path_coords@[i].x + forward_of(self.grid.cell(path_coords@[i]).ground).dx,
                        path_coords@[i].y + forward_of(self.grid.cell(path_coords@[i]).ground).dy,
                    ),
                path_coords@.len() <= area,
                n == area,
                walk_from(self.grid, 0, head0.y as int, n) == path_coords@ + walk_from(
                    self.grid,
                    head.x + path.forward.dx,
                    head.y + path.forward.dy,
                    (n - path_coords@.len()) as nat,
                ),
            ensures
                walk_from(self.grid, 0, head0.y as int, n) == path_coords@,
                path_coords@.len() >= 1,
                path_coords@[0] == head0,
                forall|i: int|
                    0 <= i < path_coords@.len() ==> dims.has(#[trigger] path_coords@[i])
                        && self.grid.cell(path_coords@[i]).ground is Path,
                forall|i: int|
                    #![trigger path_coords@[i + 1]]
                    0 <= i < path_coords@.len() - 1 ==> path_coords@[i + 1] == at(
                        path_coords@[i].x + forward_of(self.grid.cell(path_coords@[i]).ground).dx,
                        path_coords@[i].y + forward_of(self.grid.cell(path_coords@[i]).ground).dy,
                    ),
                path_coords@.len() <= area,
            decreases area - path_coords@.len(),
        {
            if path_coords.len() >= area {
                proof {
                    assert(path_coords@ + Seq::<Coords>::empty() =~= path_coords@);
                }
                break ;
            }
            let nx: i64 = head.x as i64 + path.forward.dx as i64;
            let ny: i64 = head.y as i64 + path.forward.dy as i64;
            if nx < 0 || nx >= dims.w as i64 || ny < 0 || ny >= dims.h as i64 {
                proof {
                    assert(path_coords@ + Seq::<Coords>::empty() =~= path_coords@);
                }
                break ;
            }
            let next = head.shifted(path.forward);
            assert(next == at(nx as int, ny as int));
            match self.grid.get(next) {
                Some(t) => match t.path() {
                    Some(p) => {
                        let ghost before = path_coords@;
                        path_coords.push(next);
                        proof {
                            assert(path_coords@[before.len() - 1] == head);
                            assert forall|i: int|
                                #![trigger path_coords@[i + 1]]
                                0 <= i < path_coords@.len() - 1 implies path_coords@[i + 1] == at(
                                path_coords@[i].x + forward_of(self.grid.cell(path_coords@[i]).ground).dx,
                                path_coords@[i].y + forward_of(self.grid.cell(path_coords@[i]).ground).dy,
                            ) by {
                                if i < before.len() - 1 {
                                    assert(path_coords@[i] == before[i]);
                                    assert(path_coords@[i + 1] == before[i + 1]);
                                }
                            }
                        }
                        proof {
                            let k = (n - before.len()) as nat;
                            assert(walk_from(self.grid, nx as int, ny as int, k) == seq![next]
                                + walk_from(
                                self.grid,
                                next.x + p.forward.dx,
                                next.y + p.forward.dy,
                                (k - 1) as nat,
                            ));
                            assert(path_coords@ =~= before + seq![next]);
                            assert(before + (seq![next] + walk_from(
                                self.grid,
                                next.x + p.forward.dx,
                                next.y + p.forward.dy,
                                (k - 1) as nat,
                            )) =~= path_coords@ + walk_from(
                                self.grid,
                                next.x + p.forward.dx,
                                next.y + p.forward.dy,
                                (k - 1) as nat,
                            ));
                        }
                        head = next;
                        path = p;
                    },
                    None => {
                        proof {
                            assert(path_coords@ + Seq::<Coords>::empty() =~= path_coords@);
                        }
                        break ;
                    },
                },
                None => {
                    break ;
                },
            }
        }
        path_coords
    }

    /// The row and distance of the path tile of the rightmost column that
    /// leads out to the right (the first one from the top). `None` on an
    /// empty map, and otherwise the signal of a broken map, one that has no
    /// exit on its right edge: `generate_chunk_on_the_right` turns it into
    /// `WorldError::NoPathOnRightEdge`.
    pub fn rightmost_path_y_and_dist(&self) -> (r: Option<(i32, i32)>)
        requires
            self.wf(),
        ensures
            r == right_edge_join(self.grid),
    {
        let dims = self.grid.dims;
        if dims.w == 0 {
            return None;
        }
        let mut y: i32 = 0;
        while y < dims.h
            invariant
                self.wf(),
                dims == self.grid.dims,
                dims.w > 0,
                0 <= y <= dims.h,
                exit_scan(self.grid, 0) == exit_scan(self.grid, y as int),
            decreases dims.h - y,
        {
            let c = Coords { x: dims.w - 1, y };
            assert(c == at(dims.w - 1, y as int));
            let t = *self.grid.get(c).unwrap();
            match t.ground {
                Ground::Path(p) => {
                    if p.forward == CoordsDelta::right() {
                        return Some((y, p.distance));
                    }
                },
                _ => {},
            }
            y = y + 1;
        }
        None
    }

    /// Generates a chunk that continues the path and joins it on the right.
    pub fn generate_chunk_on_the_right(&mut self) -> (r: Result<(), WorldError>)
        requires
            old(self).wf(),
        ensures
            final(self).wf(),
            r is Err ==> *final(self) == *old(self),
            old(self).grid.dims.w > i32::MAX - CHUNK_SIDE ==> r == Err::<(), WorldError>(
                WorldError::TooLarge,
            ),
            old(self).grid.dims.w <= i32::MAX - CHUNK_SIDE && old(self).grid.dims.w > 0
                && right_edge_join(old(self).grid).is_none() ==> r == Err::<(), WorldError>(
                WorldError::NoPathOnRightEdge,
            ),
            old(self).grid.dims.w <= i32::MAX - CHUNK_SIDE && right_edge_join(old(self).grid) is Some
                && right_edge_join(old(self).grid).unwrap().1 > i32::MAX - MAX_PATH_LEN - 1 ==> r
                == Err::<(), WorldError>(WorldError::TooLarge),
            old(self).grid.dims.w <= i32::MAX - CHUNK_SIDE && (old(self).grid.dims.w == 0 || (
            right_edge_join(old(self).grid) is Some && right_edge_join(old(self).grid).unwrap().1
                <= i32::MAX - MAX_PATH_LEN - 1)) ==> (r is Ok || r == Err::<(), WorldError>(
                WorldError::GenerationExhausted,
            )),
            r is Ok ==> final(self).grid.dims.w == old(self).grid.dims.w + CHUNK_SIDE
                && final(self).grid.dims.h == CHUNK_SIDE,
            r is Ok ==> forall|c: Coords|
                #[trigger] old(self).grid.dims.has(c) ==> final(self).grid.cell(c) == old(
                    self,
                ).grid.cell(c),
            r is Ok ==> exists|g: Grid<Tile>|
                valid_chunk(g, right_edge_join(old(self).grid)) && #[trigger] joined(
                    old(self).grid,
                    g,
                    final(self).grid,
                ),
    {
        if self.grid.dims.w > i32::MAX - CHUNK_SIDE {
            return Err(WorldError::TooLarge);
        }
        let join = self.rightmost_path_y_and_dist();
        if self.grid.dims.w > 0 && join.is_none() {
            return Err(WorldError::NoPathOnRightEdge);
        }
        match join {
            Some((y, d)) => {
                if d > i32::MAX - MAX_PATH_LEN - 1 {
                    return Err(WorldError::TooLarge);
                }
                proof {
                    lemma_exit_scan_bounds(self.grid, 0);
                }
            },
            None => {},
        }
        match Chunk::generate(join) {
            None => Err(WorldError::GenerationExhausted),
            Some(chunk) => {
                let mut grid = Grid::of_size_zero();
                core::mem::swap(&mut grid, &mut self.grid);
                let ghost g = chunk.grid;
                self.grid = grid.add_to_right(chunk.grid);
                assert(joined(old(self).grid, g, self.grid));
                assert forall|c: Coords| #[trigger] old(self).grid.dims.has(c) implies self.grid.cell(c)
                    == old(self).grid.cell(c) by {
                    assert(self.grid.dims.has(c));
                }
                Ok(())
            },
        }
    }
}

impl GameMap {
    /// The row of the leftmost column whose tile is the path tile of distance 0.
    pub fn origin_row(&self) -> (r: Option<i32>)
        requires
            self.wf(),
        ensures
            r matches Some(y) ==> self.grid.dims.w > 0 && 0 <= y < self.grid.dims.h && path_dist_is(
                self.grid.cell(at(0, y as int)).ground,
                0,
            ),
            r is None ==> self.grid.dims.w == 0 || forall|y: int|
                0 <= y < self.grid.dims.h ==> !path_dist_is(
                    #[trigger] self.grid.cell(at(0, y)).ground,
                    0,
                ),            r matches Some(y) ==> origin_row_spec(self.grid) == Some(y as int),
            r is None ==> origin_row_spec(self.grid) is None,
    {
        let dims = self.grid.dims;
        if dims.w == 0 {
            return None;
        }
        let mut y: i32 = 0;
        while y < dims.h
            invariant
                self.wf(),
                dims == self.grid.dims,
                dims.w > 0,
                0 <= y <= dims.h,
                forall|y2: int| 0 <= y2 < y ==> !path_dist_is(#[trigger] self.grid.cell(at(0, y2)).ground, 0),
            decreases dims.h - y,
        {
            let c = Coords { x: 0, y };
            assert(c == at(0, y as int));
            match self.grid.get(c).unwrap().path() {
                Some(p) => {
                    if p.distance == 0 {
                        proof {
                            assert(is_origin_row(self.grid, y as int));
                            let o = choose|o: int| is_origin_row(self.grid, o);
                            lemma_origin_row_unique(self.grid, o, y as int);
                        }
                        return Some(y);
                    }
                },
                None => {},
            }
            y = y + 1;
        }
        proof {
            assert forall|o: int| !#[trigger] is_origin_row(self.grid, o) by {
                if is_origin_row(self.grid, o) {
                    assert(!path_dist_is(self.grid.cell(at(0, o)).ground, 0));
                }
            }
        }
        None
    }

    /// Puts the caravan on the path tile of distance 0 of the leftmost column.
    pub fn place_caravan_at_origin(&mut self) -> (placed: bool)
        requires
            old(self).wf(),
        ensures
            final(self).wf(),
            !placed ==> *final(self) == *old(self),
            placed ==> exists|y: int|
                0 <= y < old(self).grid.dims.h && path_dist_is(
                    old(self).grid.cell(at(0, y)).ground,
                    0,
                ) && #[trigger] obj_replaced(old(self).grid, final(self).grid, at(0, y), Some(Obj::Caravan)),
            placed == (old(self).grid.dims.w > 0 && exists|y: int|
                0 <= y < old(self).grid.dims.h && path_dist_is(
                    #[trigger] old(self).grid.cell(at(0, y)).ground,
                    0,
                )),
    {
        match self.origin_row() {
            None => false,
            Some(y) => {
                let c = Coords { x: 0, y };
                assert(c == at(0, y as int));
                let t = *self.grid.get(c).unwrap();
                self.grid.set(c, Tile { ground: t.ground, obj: Some(Obj::Caravan) });
                assert(obj_replaced(old(self).grid, self.grid, at(0, y as int), Some(Obj::Caravan)));
                true
            },
        }
    }

    /// Removes the enemies of the columns left of `x_limit`.
    pub fn clear_enemies_left_of(&mut self, x_limit: i32)
        requires
            old(self).wf(),
        ensures
            final(self).wf(),
            final(self).grid.dims == old(self).grid.dims,
            forall|c: Coords|
                #![trigger final(self).grid.cell(c)]
                old(self).grid.dims.has(c) ==> final(self).grid.cell(c) == if c.x < x_limit && old(
                    self,
                ).grid.cell(c).obj is Some && old(self).grid.cell(c).obj.unwrap() is Enemy {
                    Tile { ground: old(self).grid.cell(c).ground, obj: None }
                } else {
                    old(self).grid.cell(c)
                },
    {
        let dims = self.grid.dims;
        let mut x: i32 = 0;
        while x < dims.w && x < x_limit
            invariant
                self.wf(),
                dims == self.grid.dims,
                dims == old(self).grid.dims,
                0 <= x <= dims.w,
                forall|c: Coords|
                    #![trigger self.grid.cell(c)]
                    dims.has(c) ==> self.grid.cell(c) == if c.x < x && c.x < x_limit && old(
                        self,
                    ).grid.cell(c).obj is Some && old(self).grid.cell(c).obj.unwrap() is Enemy {
                        Tile { ground: old(self).grid.cell(c).ground, obj: None }
                    } else {
                        old(self).grid.cell(c)
                    },
            decreases dims.w - x,
        {
            let mut y: i32 = 0;
            while y < dims.h
                invariant
                    self.wf(),
                    dims == self.grid.dims,
                    dims == old(self).grid.dims,
                    0 <= x < dims.w,
                    x < x_limit,
                    0 <= y <= dims.h,
                    forall|c: Coords|
                        #![trigger self.grid.cell(c)]
                        dims.has(c) ==> self.grid.cell(c) == if (c.x < x || (c.x == x && c.y < y))
                            && old(self).grid.cell(c).obj is Some && old(self).grid.cell(
                            c,
                        ).obj.unwrap() is Enemy {
                            Tile { ground: old(self).grid.cell(c).ground, obj: None }
                        } else {
                            old(self).grid.cell(c)
                        },
                decreases dims.h - y,
            {
                let c = Coords { x, y };
                let t = *self.grid.get(c).unwrap();
                if t.has_enemy() {
                    self.grid.set(c, Tile { ground: t.ground, obj: None });
                }
                y = y + 1;
            }
            x = x + 1;
        }
    }

    /// The tiles that the caravan may be sent to: the path tiles after its
    /// own, following the path from its origin, up to the first one that
    /// holds another object.
    pub fn caravan_destinations(&self) -> (r: Vec<Coords>)
        requires
            self.wf(),
        ensures
            r@.len() > 0 ==> exists|c: Coords|
                #![trigger self.grid.cell(c)]
                self.grid.dims.has(c) && self.grid.cell(c).obj == Some(Obj::Caravan) && forall|i: int|
                    0 <= i < r@.len() ==> path_dist_gt(self.grid.cell(#[trigger] r@[i]).ground, self.grid.cell(c).ground),
            forall|i: int|
                0 <= i < r@.len() ==> self.grid.dims.has(#[trigger] r@[i]) && self.grid.cell(
                    r@[i],
                ).ground is Path && (self.grid.cell(r@[i]).obj is None || self.grid.cell(r@[i]).obj
                    == Some(Obj::Caravan)),
            r@ == destinations(self.grid),
    {
        let mut r: Vec<Coords> = Vec::new();
        if self.origin_row().is_none() {
            return r;
        }
        proof {
            let o = choose|o: int| is_origin_row(self.grid, o);
            assert(is_origin_row(self.grid, o));
        }
        let (cc, ct) = match self.caravan_coords_and_tile() {
            Some(x) => x,
            None => {
                return r;
            },
        };
        let caravan_dist = match ct.path() {
            Some(p) => p.distance,
            None => {
                return r;
            },
        };
        let path = self.path_coords();
        let ghost cd = caravan_dist as int;
        assert(caravan_distance(self.grid) == Some(caravan_dist));
        assert(path@.subrange(0, path@.len() as int) =~= path@);
        assert(r@ + dests_in(self.grid, path@, cd) =~= dests_in(self.grid, path@, cd));
        let mut i: usize = 0;
        while i < path.len()
            invariant
                self.wf(),
                cd == caravan_dist,
                path@ == path_walk(self.grid),
                dests_in(self.grid, path@, cd) == r@ + dests_in(
                    self.grid,
                    path@.subrange(i as int, path@.len() as int),
                    cd,
                ),
                i <= path@.len(),
                self.grid.dims.has(cc),
                self.grid.cell(cc).obj == Some(Obj::Caravan),
                path_dist_is(self.grid.cell(cc).ground, caravan_dist as int),
                forall|k: int|
                    0 <= k < path@.len() ==> self.grid.dims.has(#[trigger] path@[k]) && self.grid.cell(
                        path@[k],
                    ).ground is Path,
                forall|k: int|
                    0 <= k < r@.len() ==> path_dist_gt(self.grid.cell(#[trigger] r@[k]).ground, self.grid.cell(cc).ground)
                        && self.grid.dims.has(r@[k]) && self.grid.cell(r@[k]).ground is Path && (
                        self.grid.cell(r@[k]).obj is None || self.grid.cell(r@[k]).obj == Some(
                            Obj::Caravan,
                        )),
            ensures
                dests_in(self.grid, path@, cd) == r@,
            decreases path@.len() - i,
        {
            let c = path[i];
            let ghost rest = path@.subrange(i as int, path@.len() as int);
            assert(rest[0] == c);
            assert(rest.drop_first() =~= path@.subrange(i + 1, path@.len() as int));
            assert(self.grid.dims.has(path@[i as int]));
            let t = *self.grid.get(c).unwrap();
            let d = match t.path() {
                Some(p) => p.distance,
                None => caravan_dist,
            };
            if d > caravan_dist {
                match t.obj {
                    None => {},
                    Some(Obj::Caravan) => {},
                    _ => {
                        assert(r@ + Seq::<Coords>::empty() =~= r@);
                        break ;
                    },
                }
                let ghost before = r@;
                r.push(c);
                proof {
                    assert(before + (seq![c] + dests_in(self.grid, rest.drop_first(), cd)) =~= r@
                        + dests_in(self.grid, rest.drop_first(), cd));
                }
            }
            i = i + 1;
            if i == path.len() {
                proof {
                    assert(path@.subrange(i as int, path@.len() as int).len() == 0);
                    assert(r@ + Seq::<Coords>::empty() =~= r@);
                }
            }
        }
        r
    }
}

proof fn lemma_exit_scan_finds(g: Grid<Tile>, y0: int, y: int)
    requires
        0 <= y0 <= y < g.dims.h,
        g.cell(at(g.dims.w - 1, y)).ground is Path,
        forward_of(g.cell(at(g.dims.w - 1, y)).ground) == dir_right(),
    ensures
        exit_scan(g, y0) is Some,
    decreases y - y0,
{
    if y0 < y {
        lemma_exit_scan_finds(g, y0 + 1, y);
    }
}

/// A map that just received a generated chunk on its right has an exit on
/// its right edge: the last tile of the chunk's path.
pub proof fn lemma_joined_chunk_has_exit(g1: Grid<Tile>, g2: Grid<Tile>)
    requires
        g1.wf(),
        exists|g: Grid<Tile>| valid_chunk(g, right_edge_join(g1)) && #[trigger] joined(g1, g, g2),
    ensures
        right_edge_join(g2) is Some,
{
    let g = choose|g: Grid<Tile>| valid_chunk(g, right_edge_join(g1)) && #[trigger] joined(g1, g, g2);
    let join = right_edge_join(g1);
    let (row, p, recs) = choose|row: int, p: Seq<Coords>, recs: Seq<Path>|
        0 <= row < CHUNK_SIDE && #[trigger] is_chunk_path(
            g,
            p,
            recs,
            entry_of(join, row).0,
            entry_of(join, row).1,
        ) && accepted(recs);
    let last = p.last();
    assert(p[p.len() - 1] == last);
    assert(g.dims.has(last) && g.cell(last).ground == Ground::Path(recs[p.len() - 1]));
    let c2 = at(g1.dims.w + last.x, last.y as int);
    assert(g2.dims.has(c2));
    assert(at(c2.x - g1.dims.w, c2.y as int) == last);
    assert(g2.cell(c2) == g.cell(last));
    assert(c2 == at(g2.dims.w - 1, last.y as int));
    lemma_exit_scan_finds(g2, 0, last.y as int);
}

proof fn lemma_exit_scan_bounds(g: Grid<Tile>, y: int)
    requires
        0 <= y,
    ensures
        exit_scan(g, y) matches Some((yy, _)) ==> y <= yy < g.dims.h,
    decreases g.dims.h - y,
{
    if y < g.dims.h {
        lemma_exit_scan_bounds(g, y + 1);
    }
}

/// The first caravan is one tile.
pub proof fn lemma_first_caravan_unique(g: Grid<Tile>, a: Coords, b: Coords)
    requires
        g.wf(),
        is_first_caravan(g, a),
        is_first_caravan(g, b),
    ensures
        a == b,
{
    if a != b {
        crate::coords::lemma_index_injective(g.dims, a, b);
        assert(g.cell(a).obj == Some(Obj::Caravan));
        assert(g.cell(b).obj == Some(Obj::Caravan));
    }
}

proof fn lemma_rank_order(d: Dimensions, a: Coords, b: Coords)
    requires
        d.has(a),
        d.has(b),
        d.index_spec(a) < d.index_spec(b),
    ensures
        a.y < b.y || (a.y == b.y && a.x < b.x),
{
    let w = d.w as int;
    if a.y > b.y {
        assert(b.y * w + b.x < a.y * w + a.x) by (nonlinear_arith)
            requires
                0 <= b.x < w,
                0 <= a.x,
                b.y < a.y,
        ;
    } else if a.y == b.y {
    }
}

} // verus!
