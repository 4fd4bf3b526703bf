use caravan::coords::{Coords, CoordsDelta, Dimensions, Grid, Rect};
use caravan::draw::{obj_sprite, DrawSpriteEffects};
use caravan::map::GameMap;
use caravan::tile::{Ground, Obj, Path, Tile, Tower};

fn map_with(tiles: &[(i32, i32, Ground)]) -> GameMap {
    let mut grid = Grid::new(Dimensions::new(10, 10), |_c: Coords| Tile {
        ground: Ground::Grass { visual_variant: 0 },
        obj: None,
    });
    for (x, y, g) in tiles {
        grid.set(Coords::new(*x, *y), Tile { ground: *g, obj: None });
    }
    GameMap { grid }
}

fn path(forward: CoordsDelta, backward: CoordsDelta) -> Ground {
    Ground::Path(Path { forward, backward, distance: 0 })
}

#[test]
fn grass_sprites() {
    let map = map_with(&[(1, 1, Ground::Grass { visual_variant: 2 }), (2, 2, Ground::Grass { visual_variant: 4 })]);
    let (sprite, effects) = map.ground_sprite_at(Coords::new(1, 1)).unwrap();
    assert_eq!(sprite, Rect::xywh(32, 0, 16, 16));
    assert_eq!(effects, DrawSpriteEffects::none());
    assert_eq!(map.ground_sprite_at(Coords::new(2, 2)), None);
    assert_eq!(map.ground_sprite_at(Coords::new(10, 2)), None);
}

#[test]
fn path_sprites() {
    let map = map_with(&[
        (1, 1, path(CoordsDelta::right(), CoordsDelta::left())),
        (2, 1, path(CoordsDelta::up(), CoordsDelta::down())),
        (3, 1, path(CoordsDelta::left(), CoordsDelta::up())),
        (4, 1, path(CoordsDelta::down(), CoordsDelta::right())),
        (5, 1, path(CoordsDelta::new(1, 1), CoordsDelta::new(0, 0))),
    ]);
    let (s, e) = map.ground_sprite_at(Coords::new(1, 1)).unwrap();
    assert_eq!((s, e.flip_diagonally_id), (Rect::xywh(64, 0, 16, 16), false));
    let (s, e) = map.ground_sprite_at(Coords::new(2, 1)).unwrap();
    assert_eq!((s, e.flip_diagonally_id), (Rect::xywh(64, 0, 16, 16), true));
    let (s, e) = map.ground_sprite_at(Coords::new(3, 1)).unwrap();
    assert_eq!((s, e.flip_horizontally, e.flip_vertically), (Rect::xywh(80, 0, 16, 16), false, false));
    let (s, e) = map.ground_sprite_at(Coords::new(4, 1)).unwrap();
    assert_eq!((s, e.flip_horizontally, e.flip_vertically), (Rect::xywh(80, 0, 16, 16), true, true));
    assert_eq!(map.ground_sprite_at(Coords::new(5, 1)), None);
}

#[test]
fn water_sprites_depend_on_neighbours() {
    let map = map_with(&[
        (0, 0, Ground::Water),
        (3, 3, Ground::Water),
        (3, 4, Ground::Water),
        (2, 4, Ground::Water),
    ]);
    // Top row: nothing above (+2), nothing on the left counts as water.
    let (s, _) = map.ground_sprite_at(Coords::new(0, 0)).unwrap();
    assert_eq!(s, Rect::xywh(8 * 16, 0, 16, 16));
    // Grass above and on the left: 6 + 0 + 1.
    let (s, _) = map.ground_sprite_at(Coords::new(3, 3)).unwrap();
    assert_eq!(s, Rect::xywh(7 * 16, 0, 16, 16));
    // Water above, grass at the top-left corner, water on the left: 6 + 6 + 0.
    let (s, _) = map.ground_sprite_at(Coords::new(3, 4)).unwrap();
    assert_eq!(s, Rect::xywh(12 * 16, 0, 16, 16));
}

#[test]
fn object_sprites() {
    let dst = Rect::xywh(0, 64, 64, 64);
    assert_eq!(obj_sprite(&Obj::Caravan, dst), (Rect::xywh(112, 32, 16, 16), Rect::xywh(0, 52, 64, 64)));
    assert_eq!(obj_sprite(&Obj::Tree, dst), (Rect::xywh(64, 16, 16, 32), Rect::xywh(0, -8, 64, 128)));
    assert_eq!(obj_sprite(&Obj::Crystal, dst).0, Rect::xywh(48, 16, 16, 32));
    let tower = Obj::Tower { actions: 0, hp: 3, fire: 0, variant: Tower::Blue };
    assert_eq!(obj_sprite(&tower, dst), (Rect::xywh(160, 64, 16, 16), Rect::xywh(0, 56, 64, 64)));
}

#[test]
fn broken_path_tile_with_equal_steps_has_no_sprite() {
    let map = map_with(&[(1, 1, path(CoordsDelta::right(), CoordsDelta::right()))]);
    assert_eq!(map.ground_sprite_at(Coords::new(1, 1)), None);
}
