use caravan::coords::{Coords, CoordsDelta, Dimensions, Grid};
use caravan::draw::SoundEffect;
use caravan::game::{
    Animation, AnimationAction, Game, Phase, TimeProgression, ANIMATION_MS, CRYSTAL_REWARD,
    INITIAL_CRYSTALS, TOWER_PRICE,
};
use caravan::map::GameMap;
use caravan::tile::{Enemy, Ground, Obj, Path, ShotCascade, Tile, Tower};

fn path_tile(distance: i32, obj: Option<Obj>) -> Tile {
    Tile {
        ground: Ground::Path(Path {
            forward: CoordsDelta::right(),
            backward: CoordsDelta::left(),
            distance,
        }),
        obj,
    }
}

/// A 10×10 map whose row 5 is a straight path from left to right.
fn straight_map() -> GameMap {
    let grid = Grid::new(Dimensions::new(10, 10), |c: Coords| {
        if c.y == 5 {
            path_tile(c.x, None)
        } else {
            Tile { ground: Ground::Grass { visual_variant: 0 }, obj: None }
        }
    });
    GameMap { grid }
}

fn enemy(actions: i32, hp: i32, fire: i32) -> Obj {
    Obj::Enemy { actions, hp, fire, variant: Enemy::Basic }
}

fn obj_at(game: &Game, x: i32, y: i32) -> Option<Obj> {
    game.map.grid.get(Coords::new(x, y)).unwrap().obj
}

fn set_obj(game: &mut Game, x: i32, y: i32, obj: Option<Obj>) {
    let t = *game.map.grid.get(Coords::new(x, y)).unwrap();
    game.map.grid.set(Coords::new(x, y), Tile { ground: t.ground, obj });
}

#[test]
fn new_game_starts_in_player_phase() {
    let game = Game::new(straight_map());
    assert_eq!(game.phase, Phase::Player);
    assert_eq!(game.crystal_amount, INITIAL_CRYSTALS);
    assert_eq!(game.turn_counter, 0);
    assert!(game.animations.is_empty());
}

#[test]
fn time_progression_is_done_after_duration() {
    let tp = TimeProgression::new(100, 50);
    assert!(!tp.is_done(99));
    assert!(!tp.is_done(149));
    assert!(tp.is_done(150));
    assert!(tp.is_done(1000));
}

#[test]
fn tower_placement_rejected_one_crystal_short() {
    let mut game = Game::new(straight_map());
    game.crystal_amount = TOWER_PRICE - 1;
    let placed = game.place_tower(Coords::new(3, 3), Tower::Basic, 0);
    assert!(!placed);
    assert_eq!(game.crystal_amount, TOWER_PRICE - 1);
    assert!(game.animations.is_empty());
    assert!(!game.end_player_phase_after_animation);
    assert_eq!(obj_at(&game, 3, 3), None);
}

#[test]
fn tower_placement_with_exact_price() {
    let mut game = Game::new(straight_map());
    game.crystal_amount = TOWER_PRICE;
    assert!(game.place_tower(Coords::new(3, 3), Tower::Pink, 7));
    assert_eq!(game.crystal_amount, 0);
    assert!(game.end_player_phase_after_animation);
    assert_eq!(game.animations.len(), 1);
    match &game.animations[0].action {
        AnimationAction::Appear { obj, to } => {
            assert_eq!(*to, Coords::new(3, 3));
            assert_eq!(*obj, Obj::Tower { actions: 0, hp: 4, fire: 0, variant: Tower::Pink });
        },
        other => panic!("unexpected animation {other:?}"),
    }
    assert_eq!(game.animations[0].tp, TimeProgression::new(7, ANIMATION_MS));
    // The tower is there once the animation is over, and the enemy phase begins.
    let mut sounds = vec![];
    game.tick(7 + ANIMATION_MS, 9, &mut sounds).unwrap();
    assert!(matches!(obj_at(&game, 3, 3), Some(Obj::Tower { variant: Tower::Pink, .. })));
    assert_eq!(game.phase, Phase::Enemy);
}

#[test]
fn tower_placement_rejected_on_water_or_occupied_tile() {
    let mut game = Game::new(straight_map());
    game.map.grid.set(Coords::new(1, 1), Tile { ground: Ground::Water, obj: None });
    assert!(!game.place_tower(Coords::new(1, 1), Tower::Basic, 0));
    set_obj(&mut game, 2, 2, Some(Obj::Tree));
    assert!(!game.place_tower(Coords::new(2, 2), Tower::Basic, 0));
    assert!(!game.place_tower(Coords::new(10, 2), Tower::Basic, 0));
    assert_eq!(game.crystal_amount, INITIAL_CRYSTALS);
}

#[test]
fn mining_a_crystal_adds_the_reward_and_removes_it() {
    let mut game = Game::new(straight_map());
    set_obj(&mut game, 4, 1, Some(Obj::Crystal));
    assert!(game.mine_crystal(Coords::new(4, 1), 0));
    assert_eq!(game.crystal_amount, INITIAL_CRYSTALS + CRYSTAL_REWARD);
    assert_eq!(obj_at(&game, 4, 1), None);
    assert!(game.end_player_phase_after_animation);
    // Mining where there is no crystal does nothing.
    let mut game = Game::new(straight_map());
    assert!(!game.mine_crystal(Coords::new(4, 1), 0));
    assert_eq!(game.crystal_amount, INITIAL_CRYSTALS);
}

#[test]
fn turn_phases_go_player_enemy_tower_player() {
    let mut game = Game::new(straight_map());
    set_obj(&mut game, 0, 5, Some(Obj::Caravan));
    set_obj(&mut game, 6, 5, Some(enemy(0, 8, 0)));
    set_obj(&mut game, 3, 2, Some(Obj::Tower { actions: 0, hp: 3, fire: 0, variant: Tower::Basic }));
    let mut sounds = vec![];
    assert!(game.skip_phase());
    game.tick(0, 9, &mut sounds).unwrap();
    assert_eq!(game.phase, Phase::Enemy);
    assert_eq!(obj_at(&game, 6, 5), Some(enemy(1, 8, 0)));
    // The enemy moves one tile backward.
    game.tick(1, 9, &mut sounds).unwrap();
    assert_eq!(game.phase, Phase::Enemy);
    assert_eq!(obj_at(&game, 6, 5), None);
    assert_eq!(game.animations.len(), 1);
    game.tick(1 + ANIMATION_MS, 9, &mut sounds).unwrap();
    assert_eq!(obj_at(&game, 5, 5), Some(enemy(0, 8, 0)));
    assert_eq!(game.phase, Phase::Enemy);
    // No enemy has an action left: the tower phase begins.
    game.tick(100, 9, &mut sounds).unwrap();
    assert_eq!(game.phase, Phase::Tower);
    assert!(matches!(obj_at(&game, 3, 2), Some(Obj::Tower { actions: 1, .. })));
    // The tower sees nothing in line and spends its action.
    game.tick(101, 9, &mut sounds).unwrap();
    assert_eq!(game.phase, Phase::Tower);
    assert!(matches!(obj_at(&game, 3, 2), Some(Obj::Tower { actions: 0, .. })));
    assert!(game.animations.is_empty());
    game.tick(102, 9, &mut sounds).unwrap();
    assert_eq!(game.phase, Phase::Player);
    assert_eq!(game.turn_counter, 1);
    assert!(sounds.contains(&SoundEffect::Step));
}

#[test]
fn game_over_without_caravan() {
    let mut game = Game::new(straight_map());
    game.phase = Phase::Tower;
    let mut sounds = vec![];
    game.tick(0, 9, &mut sounds).unwrap();
    assert_eq!(game.phase, Phase::GameOver);
    assert_eq!(game.turn_counter, 0);
    // Nothing leaves the game-over phase.
    game.end_player_phase_right_now = true;
    game.tick(1, 9, &mut sounds).unwrap();
    assert_eq!(game.phase, Phase::GameOver);
}

#[test]
fn closest_enemy_plays_first() {
    let mut game = Game::new(straight_map());
    game.phase = Phase::Enemy;
    set_obj(&mut game, 7, 5, Some(enemy(1, 8, 0)));
    set_obj(&mut game, 3, 5, Some(enemy(1, 8, 0)));
    set_obj(&mut game, 5, 5, Some(enemy(1, 8, 0)));
    let mut sounds = vec![];
    assert_eq!(game.next_enemy(), Some(Coords::new(3, 5)));
    assert_eq!(game.enemy_step(0, &mut sounds), Some(Coords::new(3, 5)));
    game.tick(ANIMATION_MS, 9, &mut sounds).unwrap();
    assert_eq!(game.next_enemy(), Some(Coords::new(5, 5)));
    assert_eq!(game.enemy_step(100, &mut sounds), Some(Coords::new(5, 5)));
    game.tick(100 + ANIMATION_MS, 9, &mut sounds).unwrap();
    assert_eq!(game.enemy_step(200, &mut sounds), Some(Coords::new(7, 5)));
    game.tick(200 + ANIMATION_MS, 9, &mut sounds).unwrap();
    assert_eq!(game.next_enemy(), None);
    assert_eq!(obj_at(&game, 2, 5), Some(enemy(0, 8, 0)));
    assert_eq!(obj_at(&game, 4, 5), Some(enemy(0, 8, 0)));
    assert_eq!(obj_at(&game, 6, 5), Some(enemy(0, 8, 0)));
}

#[test]
fn blocked_enemy_loses_its_action() {
    let mut game = Game::new(straight_map());
    game.phase = Phase::Enemy;
    set_obj(&mut game, 4, 5, Some(Obj::Rock { visual_variant: 0 }));
    set_obj(&mut game, 5, 5, Some(enemy(1, 8, 0)));
    let mut sounds = vec![];
    assert_eq!(game.enemy_step(0, &mut sounds), Some(Coords::new(5, 5)));
    assert_eq!(obj_at(&game, 5, 5), Some(enemy(0, 8, 0)));
    assert!(game.animations.is_empty());
}

#[test]
fn burning_enemy_takes_one_damage_before_acting() {
    let mut game = Game::new(straight_map());
    game.phase = Phase::Enemy;
    set_obj(&mut game, 5, 5, Some(enemy(1, 3, 2)));
    set_obj(&mut game, 8, 5, Some(enemy(1, 1, 1)));
    let mut sounds = vec![];
    assert_eq!(game.enemy_step(0, &mut sounds), Some(Coords::new(5, 5)));
    match &game.animations[0].action {
        AnimationAction::Move { obj, from, to } => {
            assert_eq!(*obj, enemy(0, 2, 1));
            assert_eq!(*from, Coords::new(5, 5));
            assert_eq!(*to, Coords::new(4, 5));
        },
        other => panic!("unexpected animation {other:?}"),
    }
    game.tick(ANIMATION_MS, 9, &mut sounds).unwrap();
    // The second one burns to death.
    assert_eq!(game.enemy_step(100, &mut sounds), Some(Coords::new(8, 5)));
    assert_eq!(obj_at(&game, 8, 5), None);
    assert_eq!(sounds.iter().filter(|s| **s == SoundEffect::Hit).count(), 2);
}

#[test]
fn enemy_steps_onto_the_caravan() {
    let mut game = Game::new(straight_map());
    game.phase = Phase::Enemy;
    set_obj(&mut game, 2, 5, Some(Obj::Caravan));
    set_obj(&mut game, 3, 5, Some(enemy(1, 8, 0)));
    let mut sounds = vec![];
    assert_eq!(game.enemy_step(0, &mut sounds), Some(Coords::new(3, 5)));
    game.tick(ANIMATION_MS, 9, &mut sounds).unwrap();
    assert_eq!(obj_at(&game, 2, 5), Some(enemy(0, 8, 0)));
    assert_eq!(game.map.caravan_coords_and_tile(), None);
}

#[test]
fn tower_shoots_the_closest_visible_enemy() {
    let mut game = Game::new(straight_map());
    game.phase = Phase::Tower;
    // Tower in the middle of the path row; enemies to its left and right.
    set_obj(&mut game, 5, 4, Some(Obj::Tower { actions: 1, hp: 3, fire: 0, variant: Tower::Basic }));
    game.map.grid.set(Coords::new(5, 7), path_tile(40, Some(enemy(0, 8, 0))));
    game.map.grid.set(Coords::new(5, 1), path_tile(30, Some(enemy(0, 8, 0))));
    let mut sounds = vec![];
    assert_eq!(game.tower_target(Coords::new(5, 4)), Some(CoordsDelta::up()));
    assert_eq!(game.tower_step(0, &mut sounds), Some(Coords::new(5, 4)));
    assert_eq!(game.animations.len(), 1);
    match &game.animations[0].action {
        AnimationAction::Shoot { from, direction, shot } => {
            assert_eq!(*from, Coords::new(5, 4));
            assert_eq!(*direction, CoordsDelta::up());
            assert_eq!(shot.damages, 1);
        },
        other => panic!("unexpected animation {other:?}"),
    }
}

#[test]
fn tower_view_is_blocked_by_the_first_object() {
    let mut game = Game::new(straight_map());
    set_obj(&mut game, 2, 2, Some(Obj::Tower { actions: 1, hp: 3, fire: 0, variant: Tower::Basic }));
    set_obj(&mut game, 2, 3, Some(Obj::Tree));
    game.map.grid.set(Coords::new(2, 6), path_tile(2, Some(enemy(0, 8, 0))));
    assert_eq!(game.tower_target(Coords::new(2, 2)), None);
}

fn run_until_still(game: &mut Game, mut now: u64, sounds: &mut Vec<SoundEffect>) -> u64 {
    while !game.animations.is_empty() {
        now += ANIMATION_MS;
        game.update_animations(now, sounds);
    }
    now
}

#[test]
fn blue_tower_shot_cascade_on_a_target_three_tiles_away() {
    let mut game = Game::new(straight_map());
    game.phase = Phase::Tower;
    set_obj(&mut game, 0, 5, Some(Obj::Tower { actions: 1, hp: 3, fire: 0, variant: Tower::Blue }));
    set_obj(&mut game, 4, 5, Some(enemy(0, 8, 0)));
    set_obj(&mut game, 6, 5, Some(enemy(0, 8, 0)));
    let mut sounds = vec![];
    assert_eq!(game.tower_step(0, &mut sounds), Some(Coords::new(0, 5)));
    // The shot crosses the three empty tiles, one per animation.
    let mut now = 0;
    for x in 1..=3 {
        now += ANIMATION_MS;
        game.update_animations(now, &mut sounds);
        assert_eq!(game.animations.len(), 1);
        match &game.animations[0].action {
            AnimationAction::Shoot { from, .. } => assert_eq!(*from, Coords::new(x, 5)),
            other => panic!("unexpected animation {other:?}"),
        }
        assert_eq!(obj_at(&game, 4, 5), Some(enemy(0, 8, 0)));
    }
    // First stage hits: two more actions, no damage; the second stage pierces on.
    now += ANIMATION_MS;
    game.update_animations(now, &mut sounds);
    assert_eq!(obj_at(&game, 4, 5), Some(enemy(2, 8, 0)));
    match &game.animations[0].action {
        AnimationAction::Shoot { from, direction, shot } => {
            assert_eq!(*from, Coords::new(4, 5));
            assert_eq!(*direction, CoordsDelta::right());
            assert_eq!((shot.damages, shot.fire, shot.additional_actions), (1, 0, 0));
        },
        other => panic!("unexpected animation {other:?}"),
    }
    // Second stage crosses one empty tile and hits the next enemy for one damage.
    now += ANIMATION_MS;
    game.update_animations(now, &mut sounds);
    now += ANIMATION_MS;
    game.update_animations(now, &mut sounds);
    assert_eq!(obj_at(&game, 6, 5), Some(enemy(0, 7, 0)));
    match &game.animations[0].action {
        AnimationAction::Shoot { shot, .. } => {
            assert_eq!((shot.damages, shot.fire, shot.additional_actions), (0, 4, 0));
            assert!(matches!(shot.cascade, ShotCascade::Stop));
        },
        other => panic!("unexpected animation {other:?}"),
    }
    // The fire stage finds nothing more and leaves the map.
    run_until_still(&mut game, now, &mut sounds);
    assert_eq!(obj_at(&game, 4, 5), Some(enemy(2, 8, 0)));
    assert_eq!(obj_at(&game, 6, 5), Some(enemy(0, 7, 0)));
}

#[test]
fn blue_tower_fire_stage_applies_when_it_reaches_an_object() {
    let mut game = Game::new(straight_map());
    game.phase = Phase::Tower;
    set_obj(&mut game, 0, 5, Some(Obj::Tower { actions: 1, hp: 3, fire: 0, variant: Tower::Blue }));
    set_obj(&mut game, 2, 5, Some(enemy(0, 8, 0)));
    set_obj(&mut game, 3, 5, Some(enemy(0, 8, 0)));
    set_obj(&mut game, 4, 5, Some(enemy(0, 8, 0)));
    let mut sounds = vec![];
    game.tower_step(0, &mut sounds);
    run_until_still(&mut game, 0, &mut sounds);
    assert_eq!(obj_at(&game, 2, 5), Some(enemy(2, 8, 0)));
    assert_eq!(obj_at(&game, 3, 5), Some(enemy(0, 7, 0)));
    assert_eq!(obj_at(&game, 4, 5), Some(enemy(0, 8, 4)));
}

#[test]
fn split_shot_spawns_two_perpendicular_opposite_shots() {
    let mut map = straight_map();
    map.grid.set(Coords::new(4, 5), path_tile(4, Some(enemy(0, 8, 0))));
    let shot = Tower::Pink.shot();
    let mut sounds = vec![];
    let next =
        map.resolve_shot(Coords::new(3, 5), CoordsDelta::right(), &shot, ANIMATION_MS, 10, &mut sounds);
    // The pink shot heals by one.
    assert_eq!(map.grid.get(Coords::new(4, 5)).unwrap().obj, Some(enemy(0, 9, 0)));
    assert_eq!(next.len(), 2);
    let dirs: Vec<CoordsDelta> = next
        .iter()
        .map(|a| match &a.action {
            AnimationAction::Shoot { from, direction, shot } => {
                assert_eq!(*from, Coords::new(4, 5));
                assert_eq!(shot.damages, 3);
                *direction
            },
            other => panic!("unexpected animation {other:?}"),
        })
        .collect();
    assert_eq!(dirs[0].dx * 1 + dirs[0].dy * 0, 0);
    assert_eq!(dirs[1], dirs[0].neg());
}

#[test]
fn shot_into_empty_tile_goes_on_and_off_the_map_is_dropped() {
    let mut map = straight_map();
    let shot = Tower::Basic.shot();
    let mut sounds = vec![];
    let next = map.resolve_shot(Coords::new(3, 3), CoordsDelta::left(), &shot, 80, 5, &mut sounds);
    assert_eq!(next.len(), 1);
    assert_eq!(next[0].tp, TimeProgression::new(5, 80));
    let gone = map.resolve_shot(Coords::new(0, 3), CoordsDelta::left(), &shot, 80, 5, &mut sounds);
    assert!(gone.is_empty());
}

#[test]
fn piercing_chain_has_one_shot_per_stage() {
    let mut shot = Tower::Blue.shot();
    let mut stages = 1;
    loop {
        match shot.cascade {
            ShotCascade::Piercing(next) => {
                stages += 1;
                shot = *next;
            },
            _ => break,
        }
    }
    assert_eq!(stages, 3);
}

#[test]
fn caravan_moves_along_the_path() {
    let mut game = Game::new(straight_map());
    set_obj(&mut game, 0, 5, Some(Obj::Caravan));
    let dests = game.map.caravan_destinations();
    assert_eq!(dests.len(), 9);
    assert_eq!(dests[0], Coords::new(1, 5));
    set_obj(&mut game, 4, 5, Some(Obj::Rock { visual_variant: 1 }));
    let dests = game.map.caravan_destinations();
    assert_eq!(dests, vec![Coords::new(1, 5), Coords::new(2, 5), Coords::new(3, 5)]);
    assert!(!game.start_caravan_move(Coords::new(6, 5)));
    assert!(game.start_caravan_move(Coords::new(3, 5)));
    assert_eq!(game.caravan_moves_left, 3);
    let mut sounds = vec![];
    let mut now = 0;
    while game.phase == Phase::Player {
        game.tick(now, 9, &mut sounds).unwrap();
        now += ANIMATION_MS;
    }
    assert_eq!(game.phase, Phase::Enemy);
    assert_eq!(obj_at(&game, 3, 5), Some(Obj::Caravan));
    assert_eq!(game.distance_traveled, 3);
}

#[test]
fn caravan_single_step_and_camera_pan() {
    let mut game = Game::new(straight_map());
    set_obj(&mut game, 0, 5, Some(Obj::Caravan));
    let mut sounds = vec![];
    assert!(game.move_caravan_once(0, &mut sounds));
    assert_eq!(game.distance_traveled, 1);
    assert!(!game.pan_camera(0));
    game.tick(ANIMATION_MS, 9, &mut sounds).unwrap();
    assert_eq!(obj_at(&game, 1, 5), Some(Obj::Caravan));
    assert_eq!(game.phase, Phase::Enemy);
    let mut game = Game::new(straight_map());
    assert!(game.pan_camera(0));
    game.tick(ANIMATION_MS, 9, &mut sounds).unwrap();
    assert_eq!(game.camera_x, 1);
    assert_eq!(game.phase, Phase::Enemy);
}

#[test]
fn enemy_phase_end_needs_a_path_column() {
    let mut game = Game::new(straight_map());
    game.phase = Phase::Enemy;
    assert_eq!(game.finish_enemy_phase(12), Err(caravan::map::WorldError::NoPathOnColumn));
    assert_eq!(game.phase, Phase::Enemy);
    assert_eq!(game.finish_enemy_phase(9), Ok(()));
    assert_eq!(game.phase, Phase::Tower);
    if let Some(Obj::Enemy { hp, actions, .. }) = obj_at(&game, 9, 5) {
        assert!(hp == 8 || hp == 10 || hp == 12);
        assert_eq!(actions, 0);
    }
}

#[test]
fn world_extends_to_a_width() {
    let map = GameMap::new();
    let mut game = Game::new(map);
    assert_eq!(game.extend_world_to(25), Ok(()));
    assert_eq!(game.map.grid.dims, Dimensions::new(30, 10));
    assert!(game.map.place_caravan_at_origin());
}

#[test]
fn animation_duplicate_is_equal() {
    let a = Animation {
        action: AnimationAction::Shoot {
            from: Coords::new(1, 2),
            direction: CoordsDelta::down(),
            shot: Tower::Blue.shot(),
        },
        tp: TimeProgression::new(3, 4),
    };
    let b = a.duplicate();
    assert_eq!(format!("{a:?}"), format!("{b:?}"));
}

#[test]
fn world_already_wide_enough_is_left_alone() {
    let mut game = Game::new(straight_map());
    assert_eq!(game.extend_world_to(10), Ok(()));
    assert_eq!(game.map.grid.dims, Dimensions::new(10, 10));
}

#[test]
fn running_animations_stay_and_finished_ones_end() {
    let mut game = Game::new(straight_map());
    assert!(game.pan_camera(0));
    let mut sounds = vec![];
    game.update_animations(ANIMATION_MS - 1, &mut sounds);
    assert_eq!(game.animations.len(), 1);
    assert_eq!(game.camera_x, 0);
    assert_eq!(game.phase, Phase::Player);
    game.update_animations(ANIMATION_MS, &mut sounds);
    assert!(game.animations.is_empty());
    assert_eq!(game.camera_x, 1);
    assert_eq!(game.phase, Phase::Enemy);
}
