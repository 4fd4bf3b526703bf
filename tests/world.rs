use caravan::chunk::{open_directions, pick_direction_from, rand_range, Chunk, CHUNK_SIDE};
use caravan::coords::{Coords, CoordsDelta, Dimensions, Grid};
use caravan::map::{GameMap, WorldError};
use caravan::tile::{Ground, Obj, Path, Tile};

/// Walks a chunk's path from its entry row, checking continuity, and returns
/// the visited tiles with their distances.
fn walk(grid: &Grid<Tile>, row: i32) -> Vec<(Coords, i32)> {
    let mut out = vec![];
    let mut head = Coords::new(0, row);
    loop {
        let tile = grid.get(head).expect("path stays inside the chunk");
        let path = tile.path().expect("walk stays on path tiles");
        out.push((head, path.distance));
        assert!(out.len() <= 100);
        let next = head.shifted(path.forward);
        if next.x == grid.dims.w {
            assert_eq!(path.forward, CoordsDelta::right());
            break;
        }
        let back = grid.get(next).unwrap().path().unwrap().backward;
        assert_eq!(next.shifted(back), head);
        head = next;
    }
    out
}

fn check_chunk(grid: &Grid<Tile>, row: i32, first_distance: i32) {
    assert_eq!(grid.dims, Dimensions::new(CHUNK_SIDE, CHUNK_SIDE));
    let entry = grid.get(Coords::new(0, row)).unwrap().path().unwrap();
    assert_eq!(entry.backward, CoordsDelta::left());
    let steps = walk(grid, row);
    // Distances go up by one from the entry.
    for (i, (_, d)) in steps.iter().enumerate() {
        assert_eq!(*d, first_distance + i as i32);
    }
    // Each path tile is visited exactly once.
    let mut path_tiles = 0;
    for y in 0..CHUNK_SIDE {
        for x in 0..CHUNK_SIDE {
            if grid.get(Coords::new(x, y)).unwrap().has_path() {
                path_tiles += 1;
                assert!(steps.iter().any(|(c, _)| *c == Coords::new(x, y)));
            }
        }
    }
    assert_eq!(path_tiles, steps.len());
    // Acceptance band, westward steps and U-turns.
    assert!(steps.len() >= 14 && steps.len() < 30);
    let paths: Vec<Path> =
        steps.iter().map(|(c, _)| grid.get(*c).unwrap().path().unwrap()).collect();
    let westward = paths.iter().filter(|p| p.forward == CoordsDelta::left()).count();
    assert!(westward >= 2);
    let turns = |p: &Path| {
        !((p.backward.dx == 0 && p.forward.dx == 0) || (p.backward.dy == 0 && p.forward.dy == 0))
    };
    let u_turns = paths.windows(2).filter(|w| turns(&w[0]) && turns(&w[1])).count();
    assert!(u_turns < 2);
    // Enemies stand on the path only.
    for y in 0..CHUNK_SIDE {
        for x in 0..CHUNK_SIDE {
            let t = grid.get(Coords::new(x, y)).unwrap();
            if t.has_enemy() {
                assert!(t.has_path());
            }
        }
    }
}

#[test]
fn generated_chunks_have_one_continuous_path() {
    for _ in 0..4 {
        let chunk = Chunk::generate(None).expect("a chunk");
        let row = (0..CHUNK_SIDE)
            .find(|y| {
                let t = chunk.grid.get(Coords::new(0, *y)).unwrap();
                t.path().is_some_and(|p| p.distance == 0)
            })
            .expect("an entry of distance 0");
        check_chunk(&chunk.grid, row, 0);
    }
}

#[test]
fn chunk_continues_the_join() {
    for row in [0, 9] {
        let chunk = Chunk::generate(Some((row, 41))).expect("a chunk");
        let entry = chunk.grid.get(Coords::new(0, row)).unwrap().path().unwrap();
        assert_eq!(entry.distance, 42);
        check_chunk(&chunk.grid, row, 42);
    }
}

#[test]
fn rand_range_stays_in_range_and_varies() {
    let mut seen = [false; 5];
    for _ in 0..500 {
        let v = rand_range(3, 8);
        assert!((3..8).contains(&v));
        seen[(v - 3) as usize] = true;
    }
    assert!(seen.iter().all(|s| *s));
}

#[test]
fn chunk_entry_rows_vary_without_join() {
    let mut rows = std::collections::HashSet::new();
    for _ in 0..8 {
        let chunk = Chunk::generate(None).unwrap();
        let row = (0..CHUNK_SIDE)
            .find(|y| chunk.grid.get(Coords::new(0, *y)).unwrap().has_path())
            .unwrap();
        rows.insert(row);
    }
    assert!(rows.len() > 1);
}

#[test]
fn map_grows_by_chunks_and_keeps_its_left_part() {
    let mut map = GameMap::new();
    assert_eq!(map.rightmost_path_y_and_dist(), None);
    assert_eq!(map.generate_chunk_on_the_right(), Ok(()));
    assert_eq!(map.grid.dims, Dimensions::new(10, 10));
    let before = map.grid.clone();
    let (y, d) = map.rightmost_path_y_and_dist().expect("an exit");
    assert_eq!(map.generate_chunk_on_the_right(), Ok(()));
    assert_eq!(map.grid.dims, Dimensions::new(20, 10));
    for yy in 0..10 {
        for x in 0..10 {
            let c = Coords::new(x, yy);
            assert_eq!(map.grid.get(c), before.get(c));
        }
    }
    let entry = map.grid.get(Coords::new(10, y)).unwrap().path().unwrap();
    assert_eq!(entry.distance, d + 1);
    // The whole path can be followed from its origin across the two chunks.
    let path = map.path_coords();
    assert_eq!(path[0].x, 0);
    assert!(path.iter().any(|c| c.x >= 10));
    for (i, c) in path.iter().enumerate() {
        let p = map.grid.get(*c).unwrap().path().unwrap();
        assert_eq!(p.distance, i as i32);
    }
    assert_eq!(path.last().unwrap().x, 19);
}

fn grass_map() -> GameMap {
    let grid = Grid::new(Dimensions::new(10, 10), |_c: Coords| Tile {
        ground: Ground::Grass { visual_variant: 0 },
        obj: None,
    });
    GameMap { grid }
}

#[test]
fn map_without_exit_cannot_grow() {
    let mut map = grass_map();
    assert_eq!(map.rightmost_path_y_and_dist(), None);
    assert_eq!(map.generate_chunk_on_the_right(), Err(WorldError::NoPathOnRightEdge));
    assert_eq!(map.grid.dims, Dimensions::new(10, 10));
}

#[test]
fn map_with_huge_distance_cannot_grow() {
    let mut map = grass_map();
    map.grid.set(
        Coords::new(9, 3),
        Tile {
            ground: Ground::Path(Path {
                forward: CoordsDelta::right(),
                backward: CoordsDelta::left(),
                distance: i32::MAX - 5,
            }),
            obj: None,
        },
    );
    assert_eq!(map.rightmost_path_y_and_dist(), Some((3, i32::MAX - 5)));
    assert_eq!(map.generate_chunk_on_the_right(), Err(WorldError::TooLarge));
}

#[test]
fn caravan_search_and_distance() {
    let mut map = grass_map();
    assert_eq!(map.caravan_coords_and_tile(), None);
    assert_eq!(map.caradan_path_dist(), None);
    map.grid.set(
        Coords::new(4, 2),
        Tile {
            ground: Ground::Path(Path {
                forward: CoordsDelta::right(),
                backward: CoordsDelta::left(),
                distance: 17,
            }),
            obj: Some(Obj::Caravan),
        },
    );
    let (c, t) = map.caravan_coords_and_tile().unwrap();
    assert_eq!(c, Coords::new(4, 2));
    assert!(t.has_caravan());
    assert_eq!(map.caradan_path_dist(), Some(17));
}

#[test]
fn damage_destroys_at_zero_and_heals_when_negative() {
    let mut map = grass_map();
    let c = Coords::new(1, 1);
    map.grid.set(c, Tile { ground: Ground::Water, obj: Some(Obj::new_enemy(2)) });
    let flash = map.inflict_damage_to_obj_at(c, -3);
    assert_eq!(flash, Some(caravan::draw::Color::rgb_u8(255, 150, 150)));
    assert_eq!(map.grid.get(c).unwrap().obj.unwrap().hp(), Some(5));
    let flash = map.inflict_damage_to_obj_at(c, 5);
    assert_eq!(flash, Some(caravan::draw::Color::rgb_u8(255, 0, 0)));
    assert_eq!(map.grid.get(c).unwrap().obj, None);
    // Objects without hit points are untouched.
    map.grid.set(c, Tile { ground: Ground::Water, obj: Some(Obj::Tree) });
    assert_eq!(map.inflict_damage_to_obj_at(c, 5), None);
    assert_eq!(map.grid.get(c).unwrap().obj, Some(Obj::Tree));
    // Outside the map nothing happens.
    assert_eq!(map.inflict_damage_to_obj_at(Coords::new(10, 0), 5), None);
}

#[test]
fn place_caravan_and_clear_enemies() {
    let mut map = grass_map();
    assert!(!map.place_caravan_at_origin());
    let origin = Tile {
        ground: Ground::Path(Path {
            forward: CoordsDelta::right(),
            backward: CoordsDelta::left(),
            distance: 0,
        }),
        obj: None,
    };
    map.grid.set(Coords::new(0, 6), origin);
    assert_eq!(map.origin_row(), Some(6));
    assert!(map.place_caravan_at_origin());
    assert!(map.grid.get(Coords::new(0, 6)).unwrap().has_caravan());
    map.grid.set(Coords::new(2, 2), Tile { ground: Ground::Water, obj: Some(Obj::new_enemy(3)) });
    map.grid.set(Coords::new(7, 2), Tile { ground: Ground::Water, obj: Some(Obj::new_enemy(3)) });
    map.clear_enemies_left_of(5);
    assert!(!map.grid.get(Coords::new(2, 2)).unwrap().has_enemy());
    assert!(map.grid.get(Coords::new(7, 2)).unwrap().has_enemy());
    assert!(map.grid.get(Coords::new(0, 6)).unwrap().has_caravan());
}

#[test]
fn direction_choice_from_draws() {
    let options = vec![CoordsDelta::up(), CoordsDelta::right(), CoordsDelta::down()];
    // The last direction is kept on a low roll when it is open.
    assert_eq!(pick_direction_from(&options, CoordsDelta::right(), 4, 2), CoordsDelta::right());
    // Otherwise the index draw decides.
    assert_eq!(pick_direction_from(&options, CoordsDelta::right(), 5, 2), CoordsDelta::down());
    assert_eq!(pick_direction_from(&options, CoordsDelta::left(), 0, 4), CoordsDelta::right());
}

#[test]
fn open_directions_in_scan_order() {
    let mut map = grass_map();
    // A tree above and a path tile on the left of (9, 5); right is past the edge.
    map.grid.set(Coords::new(9, 4), Tile { ground: Ground::Grass { visual_variant: 0 }, obj: Some(Obj::Tree) });
    map.grid.set(
        Coords::new(8, 5),
        Tile {
            ground: Ground::Path(Path {
                forward: CoordsDelta::right(),
                backward: CoordsDelta::left(),
                distance: 0,
            }),
            obj: None,
        },
    );
    let open = open_directions(&map.grid, Coords::new(9, 5));
    assert_eq!(open, vec![CoordsDelta::right(), CoordsDelta::down()]);
}

#[test]
fn generated_chunk_decorations() {
    let chunk = Chunk::generate(Some((3, 0))).unwrap();
    for y in 0..CHUNK_SIDE {
        for x in 0..CHUNK_SIDE {
            let t = chunk.grid.get(Coords::new(x, y)).unwrap();
            match t.ground {
                Ground::Path(p) => {
                    assert!(p.forward != p.backward);
                    assert!(t.obj.is_none() || t.obj == Some(Obj::new_enemy(8)));
                },
                Ground::Water => assert!(t.obj.is_none()),
                Ground::Grass { visual_variant } => {
                    assert!(visual_variant < 4);
                    assert!(matches!(
                        t.obj,
                        None | Some(Obj::Tree) | Some(Obj::Crystal) | Some(Obj::Rock { visual_variant: 0..=2 })
                    ));
                },
            }
        }
    }
}
