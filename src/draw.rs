use vstd::prelude::*;

use crate::coords::{Coords, CoordsDelta, Grid, Rect, at, dir_down, dir_left, dir_right, dir_up};
use crate::map::GameMap;
use crate::tile::{Ground, Obj, Tile, Tower};

verus! {

/// An RGBA color, one byte per channel.
#[derive(Clone, Copy, PartialEq, Eq, Structural, Debug)]
pub struct Color {
    pub red: u8,
    pub green: u8,
    pub blue: u8,
    pub alpha: u8,
}

pub open spec fn rgba(r: u8, g: u8, b: u8, a: u8) -> Color {
    Color { red: r, green: g, blue: b, alpha: a }
}

impl Color {
    pub fn rgba_u8(r: u8, g: u8, b: u8, a: u8) -> (c: Color)
        ensures
            c == rgba(r, g, b, a),
    {
        Color { red: r, green: g, blue: b, alpha: a }
    }

    pub fn rgb_u8(r: u8, g: u8, b: u8) -> (c: Color)
        ensures
            c == rgba(r, g, b, 255),
    {
        Color::rgba_u8(r, g, b, 255)
    }

    pub fn black() -> (c: Color)
        ensures
            c == rgba(0, 0, 0, 255),
    {
        Color::rgba_u8(0, 0, 0, 255)
    }

    pub fn white() -> (c: Color)
        ensures
            c == rgba(255, 255, 255, 255),
    {
        Color::rgba_u8(255, 255, 255, 255)
    }

    /// The four channels, in the order red, green, blue, alpha.
    pub fn raw(self) -> (r: [u8; 4])
        ensures
            r@ == seq![self.red, self.green, self.blue, self.alpha],
    {
        let r = [self.red, self.green, self.blue, self.alpha];
        assert(r@ =~= seq![self.red, self.green, self.blue, self.alpha]);
        r
    }

    pub fn r(self) -> (v: u8)
        ensures
            v == self.red,
    {
        self.red
    }

    pub fn g(self) -> (v: u8)
        ensures
            v == self.green,
    {
        self.green
    }

    pub fn b(self) -> (v: u8)
        ensures
            v == self.blue,
    {
        self.blue
    }

    pub fn a(self) -> (v: u8)
        ensures
            v == self.alpha,
    {
        self.alpha
    }
}

/// How a sprite is flipped and recolored when it is drawn.
#[derive(Clone, Copy, PartialEq, Eq, Structural, Debug)]
pub struct DrawSpriteEffects {
    pub flip_horizontally: bool,
    pub flip_vertically: bool,
    pub flip_diagonally_id: bool,
    /// When some, every non-transparent pixel is painted with this color.
    pub paint: Option<Color>,
}

pub open spec fn no_effects() -> DrawSpriteEffects {
    DrawSpriteEffects {
        flip_horizontally: false,
        flip_vertically: false,
        flip_diagonally_id: false,
        paint: None,
    }
}

impl DrawSpriteEffects {
    pub fn none() -> (e: DrawSpriteEffects)
        ensures
            e == no_effects(),
    {
        DrawSpriteEffects {
            flip_horizontally: false,
            flip_vertically: false,
            flip_diagonally_id: false,
            paint: None,
        }
    }
}

/// The sound effects that the game asks to be played.
#[derive(Clone, Copy, PartialEq, Eq, Structural, Debug)]
pub enum SoundEffect {
    Pew,
    Hit,
    Step,
    Mine,
    Place,
}

/// Side of a tile sprite in the spritesheet, in pixels.
pub const SPRITE_SIDE: i32 = 16;

/// The sprite of the tile at `(x, y)` of the spritesheet's grid of tiles.
pub open spec fn sheet_tile(x: int, y: int) -> Rect {
    Rect {
        top_left: Coords { x: (x * 16) as i32, y: (y * 16) as i32 },
        dims: crate::coords::Dimensions { w: 16, h: 16 },
    }
}

pub open spec fn flips(h: bool, v: bool, d: bool) -> DrawSpriteEffects {
    DrawSpriteEffects { flip_horizontally: h, flip_vertically: v, flip_diagonally_id: d, paint: None }
}

/// The path goes through the two sides `a` and `b`.
pub open spec fn joins(forward: CoordsDelta, backward: CoordsDelta, a: CoordsDelta, b: CoordsDelta) -> bool {
    (forward == a && backward == b) || (backward == a && forward == b)
}

/// How a path tile is drawn (none for a broken tile whose two steps are the
/// same): the straight sprite, flipped along the diagonal
/// when vertical, or the turn sprite (up-left) flipped toward its two sides.
pub open spec fn path_sprite(forward: CoordsDelta, backward: CoordsDelta) -> Option<(Rect, DrawSpriteEffects)> {
    if forward == backward {
        None
    } else if forward.dy == 0 && backward.dy == 0 {
        Some((sheet_tile(4, 0), flips(false, false, false)))
    } else if forward.dx == 0 && backward.dx == 0 {
        Some((sheet_tile(4, 0), flips(false, false, true)))
    } else if joins(forward, backward, dir_up(), dir_left()) {
        Some((sheet_tile(5, 0), flips(false, false, false)))
    } else if joins(forward, backward, dir_down(), dir_left()) {
        Some((sheet_tile(5, 0), flips(false, true, false)))
    } else if joins(forward, backward, dir_up(), dir_right()) {
        Some((sheet_tile(5, 0), flips(true, false, false)))
    } else if joins(forward, backward, dir_down(), dir_right()) {
        Some((sheet_tile(5, 0), flips(true, true, false)))
    } else {
        None
    }
}

/// The sprite column of a water tile: it looks deeper under a grass edge
/// above, and its left rim shows when the tile on its left is dry.
pub open spec fn water_column(g: Grid<Tile>, c: Coords) -> int {
    let top_inside = g.dims.has(at(c.x as int, c.y - 1));
    let water_top = top_inside && g.cell(at(c.x as int, c.y - 1)).ground is Water;
    let ground_top_left = g.dims.has(at(c.x - 1, c.y - 1)) && !(g.cell(
        at(c.x - 1, c.y - 1),
    ).ground is Water);
    let water_left = !g.dims.has(at(c.x - 1, c.y as int)) || g.cell(
        at(c.x - 1, c.y as int),
    ).ground is Water;
    6 + (if !top_inside {
        2int
    } else if water_top && ground_top_left {
        6
    } else if water_top {
        4
    } else {
        0
    }) + (if water_left {
        0int
    } else {
        1
    })
}

/// The sprite and effects that draw the ground of the tile at `c`; `None`
/// outside the map, for an unknown grass look, or for a broken path tile: its
/// two steps are the same, or neither on one line nor one of the four turns.
pub open spec fn ground_sprite_spec(g: Grid<Tile>, c: Coords) -> Option<(Rect, DrawSpriteEffects)> {
    if !g.dims.has(c) {
        None
    } else {
        match g.cell(c).ground {
            Ground::Grass { visual_variant } => if visual_variant < 4 {
                Some((sheet_tile(visual_variant as int, 0), no_effects()))
            } else {
                None
            },
            Ground::Path(p) => path_sprite(p.forward, p.backward),
            Ground::Water => Some((sheet_tile(water_column(g, c), 0), no_effects())),
        }
    }
}

/// Whether the tile at `c` is on the map and has water.
fn water_at(g: &Grid<Tile>, c: Coords) -> (r: Option<bool>)
    requires
        g.wf(),
    ensures
        r is Some == g.dims.has(c),
        r matches Some(w) ==> w == g.cell(c).ground is Water,
{
    match g.get(c) {
        Some(t) => Some(t.has_water()),
        None => None,
    }
}

impl GameMap {
    /// How the ground of the tile at `coords` is drawn; the drawing of water
    /// depends on the tiles around it.
    pub fn ground_sprite_at(&self, coords: Coords) -> (r: Option<(Rect, DrawSpriteEffects)>)
        requires
            self.wf(),
        ensures
            r == ground_sprite_spec(self.grid, coords),
    {
        let g = &self.grid;
        let ground = match g.get(coords) {
            Some(t) => t.ground,
            None => {
                return None;
            },
        };
        match ground {
            Ground::Grass { visual_variant } => {
                if visual_variant < 4 {
                    Some((Rect::tile(Coords { x: visual_variant as i32, y: 0 }, 16), DrawSpriteEffects::none()))
                } else {
                    None
                }
            },
            Ground::Path(p) => {
                let forward = p.forward;
                let backward = p.backward;
                let up = CoordsDelta::up();
                let down = CoordsDelta::down();
                let left = CoordsDelta::left();
                let right = CoordsDelta::right();
                let straight = Coords { x: 4, y: 0 };
                let turn = Coords { x: 5, y: 0 };
                let choice: Option<(Coords, bool, bool, bool)> = if forward == backward {
                    None
                } else if forward.dy == 0 && backward.dy == 0 {
                    Some((straight, false, false, false))
                } else if forward.dx == 0 && backward.dx == 0 {
                    Some((straight, false, false, true))
                } else if (forward == up && backward == left) || (backward == up && forward == left) {
                    Some((turn, false, false, false))
                } else if (forward == down && backward == left) || (backward == down && forward == left) {
                    Some((turn, false, true, false))
                } else if (forward == up && backward == right) || (backward == up && forward == right) {
                    Some((turn, true, false, false))
                } else if (forward == down && backward == right) || (backward == down && forward
                    == right) {
                    Some((turn, true, true, false))
                } else {
                    None
                };
                match choice {
                    Some((sprite, h, v, d)) => Some(
                        (
                            Rect::tile(sprite, 16),
                            DrawSpriteEffects {
                                flip_horizontally: h,
                                flip_vertically: v,
                                flip_diagonally_id: d,
                                paint: None,
                            },
                        ),
                    ),
                    None => None,
                }
            },
            Ground::Water => {
                let top = Coords { x: coords.x, y: coords.y - 1 };
                let top_left = Coords { x: coords.x - 1, y: coords.y - 1 };
                let left_c = Coords { x: coords.x - 1, y: coords.y };
                assert(top == at(coords.x as int, coords.y - 1));
                assert(top_left == at(coords.x - 1, coords.y - 1));
                assert(left_c == at(coords.x - 1, coords.y as int));
                let top_water = water_at(g, top);
                let there_is_nothing_on_the_top = top_water.is_none();
                let there_is_water_on_the_top = match top_water {
                    Some(w) => w,
                    None => false,
                };
                let there_is_ground_on_the_top_left_corner = match water_at(g, top_left) {
                    Some(w) => !w,
                    None => false,
                };
                let there_is_water_on_the_left = match water_at(g, left_c) {
                    Some(w) => w,
                    None => true,
                };
                let x: i32 = 6 + if there_is_nothing_on_the_top {
                    2
                } else if there_is_water_on_the_top && there_is_ground_on_the_top_left_corner {
                    6
                } else if there_is_water_on_the_top {
                    4
                } else {
                    0
                } + if there_is_water_on_the_left {
                    0
                } else {
                    1
                };
                Some((Rect::tile(Coords { x, y: 0 }, 16), DrawSpriteEffects::none()))
            },
        }
    }
}

/// Where an object that stands on a tile drawn at `dst` is drawn, and with
/// which sprite: trees and crystals are two tiles high, the others are
/// raised a little (a tower by its type's sprite).
pub open spec fn obj_sprite_spec(obj: Obj, dst: Rect) -> (Rect, Rect) {
    let raised = Rect {
        top_left: Coords { x: dst.top_left.x, y: (dst.top_left.y - dst.dims.h * 3 / 16) as i32 },
        dims: dst.dims,
    };
    let tall = Rect {
        top_left: Coords {
            x: dst.top_left.x,
            y: (dst.top_left.y - dst.dims.h - (2 * dst.dims.h) / 16) as i32,
        },
        dims: crate::coords::Dimensions { w: dst.dims.w, h: (2 * dst.dims.h) as i32 },
    };
    let tower_dst = Rect {
        top_left: Coords { x: dst.top_left.x, y: (dst.top_left.y - dst.dims.h * 2 / 16) as i32 },
        dims: dst.dims,
    };
    let tall_sprite = |x: int|
        Rect {
            top_left: Coords { x: (x * 16) as i32, y: 16 },
            dims: crate::coords::Dimensions { w: 16, h: 32 },
        };
    match obj {
        Obj::Caravan => (sheet_tile(7, 2), raised),
        Obj::Tree => (tall_sprite(4), tall),
        Obj::Rock { visual_variant } => (sheet_tile(visual_variant as int, 2), raised),
        Obj::Crystal => (tall_sprite(3), tall),
        Obj::Enemy { .. } => (sheet_tile(4, 8), raised),
        Obj::Tower { variant, .. } => (
            sheet_tile(
                match variant {
                    Tower::Basic => 8,
                    Tower::Pink => 9,
                    Tower::Blue => 10,
                },
                4,
            ),
            tower_dst,
        ),
    }
}

/// The sprite of an object and where it is drawn, for a tile drawn at `dst`.
pub fn obj_sprite(obj: &Obj, dst: Rect) -> (r: (Rect, Rect))
    requires
        0 <= dst.dims.h <= 0x100_0000,
        0 <= dst.dims.w <= 0x100_0000,
        -0x1000_0000 <= dst.top_left.y <= 0x1000_0000,
        -0x1000_0000 <= dst.top_left.x <= 0x1000_0000,
        obj matches Obj::Rock { visual_variant } ==> visual_variant < 3,
    ensures
        r == obj_sprite_spec(*obj, dst),
{
    let raised = Rect {
        top_left: Coords { x: dst.top_left.x, y: dst.top_left.y - dst.dims.h * 3 / 16 },
        dims: dst.dims,
    };
    let tall = Rect {
        top_left: Coords { x: dst.top_left.x, y: dst.top_left.y - dst.dims.h - (2 * dst.dims.h) / 16 },
        dims: crate::coords::Dimensions { w: dst.dims.w, h: 2 * dst.dims.h },
    };
    match obj {
        Obj::Caravan => (Rect::tile(Coords { x: 7, y: 2 }, 16), raised),
        Obj::Tree => (Rect::xywh(4 * 16, 16, 16, 32), tall),
        Obj::Rock { visual_variant } => (
            Rect::tile(Coords { x: *visual_variant as i32, y: 2 }, 16),
            raised,
        ),
        Obj::Crystal => (Rect::xywh(3 * 16, 16, 16, 32), tall),
        Obj::Enemy { .. } => (Rect::tile(Coords { x: 4, y: 8 }, 16), raised),
        Obj::Tower { variant, .. } => {
            let sprite_x: i32 = match variant {
                Tower::Basic => 8,
                Tower::Pink => 9,
                Tower::Blue => 10,
            };
            (
                Rect::tile(Coords { x: sprite_x, y: 4 }, 16),
                Rect {
                    top_left: Coords { x: dst.top_left.x, y: dst.top_left.y - dst.dims.h * 2 / 16 },
                    dims: dst.dims,
                },
            )
        },
    }
}

} // verus!
