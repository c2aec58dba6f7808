use dungeon_engine::engine::{
    take_turn, take_turn_with_deltas, check_targets_ok, Command, PlayerState, Ruleset, Status,
};
use dungeon_engine::map::{GameMap, Thing, ThingType};
use dungeon_engine::tile::{DoorID, Tile};
use dungeon_engine::world::World;

fn empty_grid(width: usize, height: usize) -> Vec<Vec<Tile>> {
    let mut grid = Vec::new();
    for _ in 0..height {
        let mut row = Vec::new();
        for _ in 0..width {
            row.push(Tile::Empty);
        }
        grid.push(row);
    }
    grid
}

fn single_map_world(grid: Vec<Vec<Tile>>, entities: Vec<Thing>) -> World {
    World { maps: vec![GameMap { tiles: grid, entities }], current_map: 0 }
}

fn player_at(x: u8, y: u8, kind: ThingType) -> Thing {
    Thing { position: (x, y), thing_type: kind }
}

fn assert_valid(world: &World, rs: Ruleset) {
    assert!(world.check_wf());
    assert!(world.check_player_ok());
    assert!(check_targets_ok(world, rs));
}

#[test]
fn scenario_move_right_onto_empty() {
    // Dungeon ruleset: player at (2,2), tile (3,2) empty; MoveRight lands there.
    let grid = empty_grid(6, 6);
    let mut world = single_map_world(grid, vec![player_at(2, 2, ThingType::Player)]);
    let mut state = PlayerState::new();
    let mut game_over = false;
    assert_valid(&world, Ruleset::Dungeon);
    let deltas: Vec<(i8, i8)> = Vec::new();
    let st = take_turn_with_deltas(
        &mut world,
        &mut state,
        Ruleset::Dungeon,
        Command::MoveRight,
        &deltas,
        &mut game_over,
    );
    assert_eq!(world.maps[0].entities[0].position, (3, 2));
    assert_eq!(st.text(Ruleset::Dungeon), "");
    assert!(!game_over);
}

#[test]
fn scenario_player_steps_onto_enemy() {
    // Dungeon ruleset: moving onto an enemy ends the game with "You died!".
    let grid = empty_grid(6, 6);
    let mut world = single_map_world(
        grid,
        vec![player_at(2, 2, ThingType::Player), player_at(3, 2, ThingType::Enemy)],
    );
    let mut state = PlayerState::new();
    let mut game_over = false;
    assert_valid(&world, Ruleset::Dungeon);
    // The enemy stands still; the player steps onto it.
    let deltas: Vec<(i8, i8)> = vec![(0, 0)];
    let st = take_turn_with_deltas(
        &mut world,
        &mut state,
        Ruleset::Dungeon,
        Command::MoveRight,
        &deltas,
        &mut game_over,
    );
    assert!(game_over);
    assert_eq!(st.text(Ruleset::Dungeon), "You died!");
}

#[test]
fn scenario_guard_hits_twice() {
    // Prison ruleset: the first guard hit halves health, the second one kills.
    let grid = empty_grid(6, 6);
    let mut world = single_map_world(
        grid,
        vec![player_at(2, 2, ThingType::Prisoner), player_at(3, 2, ThingType::Guard)],
    );
    let mut state = PlayerState::new();
    let mut game_over = false;
    assert_valid(&world, Ruleset::Prison);
    let deltas: Vec<(i8, i8)> = vec![(0, 0)];
    let st = take_turn_with_deltas(
        &mut world,
        &mut state,
        Ruleset::Prison,
        Command::MoveRight,
        &deltas,
        &mut game_over,
    );
    assert_eq!(state.health, 50);
    assert!(!game_over);
    assert_eq!(st.text(Ruleset::Prison), "A guard hit you");
    // Stay put: the guard stands still on the player and hits again.
    let st2 = take_turn_with_deltas(
        &mut world,
        &mut state,
        Ruleset::Prison,
        Command::Other,
        &deltas,
        &mut game_over,
    );
    assert_eq!(state.health, 0);
    assert!(game_over);
    assert_eq!(st2.text(Ruleset::Prison), "You died! Game Over");
}

#[test]
fn scenario_locked_door() {
    // Prison ruleset: a door whose key is missing only reports the lock.
    let mut grid = empty_grid(6, 6);
    grid[2][3] = Tile::Door(DoorID(0));
    let mut world = World {
        maps: vec![
            GameMap { tiles: grid, entities: vec![player_at(2, 2, ThingType::Prisoner)] },
            GameMap { tiles: empty_grid(80, 6), entities: vec![] },
        ],
        current_map: 0,
    };
    let mut state = PlayerState::new();
    let mut game_over = false;
    assert_valid(&world, Ruleset::Prison);
    let deltas: Vec<(i8, i8)> = Vec::new();
    let st = take_turn_with_deltas(
        &mut world,
        &mut state,
        Ruleset::Prison,
        Command::MoveRight,
        &deltas,
        &mut game_over,
    );
    assert_eq!(world.current_map, 0);
    assert_eq!(world.maps[0].entities[0].position, (3, 2));
    assert!(!game_over);
    assert_eq!(st.text(Ruleset::Prison), "You need a key or the right key to open this door!");
}

#[test]
fn scenario_exit_door_wins_without_keys() {
    // Prison ruleset: door 3 is the exit; it wins regardless of the key set.
    let mut grid = empty_grid(6, 6);
    grid[2][3] = Tile::Door(DoorID(3));
    let mut world =
        single_map_world(grid, vec![player_at(2, 2, ThingType::Prisoner)]);
    let mut state = PlayerState::new();
    assert_eq!(state.keys.len(), 0);
    let mut game_over = false;
    assert_valid(&world, Ruleset::Prison);
    let deltas: Vec<(i8, i8)> = Vec::new();
    let st = take_turn_with_deltas(
        &mut world,
        &mut state,
        Ruleset::Prison,
        Command::MoveRight,
        &deltas,
        &mut game_over,
    );
    assert!(game_over);
    assert_eq!(st.text(Ruleset::Prison), "You made it out! Enjoy your freedom");
    assert_eq!(st, Status::Escaped);
}

#[test]
fn unlocked_door_advances_map() {
    // Prison ruleset: holding the key, door 1 leads to entry (6, 0) of the next map.
    let mut grid = empty_grid(8, 6);
    grid[2][3] = Tile::Door(DoorID(1));
    let mut world = World {
        maps: vec![
            GameMap { tiles: grid, entities: vec![player_at(2, 2, ThingType::Prisoner)] },
            GameMap {
                tiles: empty_grid(8, 6),
                entities: vec![player_at(1, 1, ThingType::Guard)],
            },
        ],
        current_map: 0,
    };
    let mut state = PlayerState::new();
    state.keys.push(DoorID(1));
    let mut game_over = false;
    assert_valid(&world, Ruleset::Prison);
    let deltas: Vec<(i8, i8)> = Vec::new();
    let st = take_turn_with_deltas(
        &mut world,
        &mut state,
        Ruleset::Prison,
        Command::MoveRight,
        &deltas,
        &mut game_over,
    );
    assert_eq!(world.current_map, 1);
    // The player heads the new map's entity list at the door's entry position.
    assert_eq!(world.maps[1].entities[0].position, (6, 0));
    assert!(matches!(world.maps[1].entities[0].thing_type, ThingType::Prisoner));
    // It is gone from the old map's list.
    assert_eq!(world.maps[0].entities.len(), 0);
    assert!(!game_over);
    assert_eq!(st.text(Ruleset::Prison), "You are entering the infirmary");
}

#[test]
fn key_pickup_is_exactly_once() {
    // Picking a key up empties the tile; standing there again picks nothing.
    let mut grid = empty_grid(6, 6);
    grid[2][3] = Tile::Key(DoorID(6));
    let mut world = single_map_world(grid, vec![player_at(2, 2, ThingType::Prisoner)]);
    let mut state = PlayerState::new();
    let mut game_over = false;
    assert_valid(&world, Ruleset::Prison);
    let deltas: Vec<(i8, i8)> = Vec::new();
    let st = take_turn_with_deltas(
        &mut world,
        &mut state,
        Ruleset::Prison,
        Command::MoveRight,
        &deltas,
        &mut game_over,
    );
    assert_eq!(st, Status::KeyCollected);
    assert_eq!(st.text(Ruleset::Prison), "You collected a key!");
    assert_eq!(state.keys.len(), 1);
    assert_eq!(state.keys[0], DoorID(6));
    assert!(matches!(world.maps[0].tiles[2][3], Tile::Empty));
    // A second turn on the same tile produces no further pickup.
    let st2 = take_turn_with_deltas(
        &mut world,
        &mut state,
        Ruleset::Prison,
        Command::Other,
        &deltas,
        &mut game_over,
    );
    assert_eq!(st2, Status::AllQuiet);
    assert_eq!(state.keys.len(), 1);
}

#[test]
fn other_command_changes_nothing() {
    // With no adversaries, a non-directional command is a no-op.
    let grid = empty_grid(6, 6);
    let mut world = single_map_world(grid, vec![player_at(2, 2, ThingType::Prisoner)]);
    let mut state = PlayerState::new();
    let mut game_over = false;
    assert_valid(&world, Ruleset::Prison);
    let deltas: Vec<(i8, i8)> = Vec::new();
    let st = take_turn_with_deltas(
        &mut world,
        &mut state,
        Ruleset::Prison,
        Command::Other,
        &deltas,
        &mut game_over,
    );
    assert_eq!(world.maps[0].entities[0].position, (2, 2));
    assert_eq!(state.health, 100);
    assert_eq!(state.keys.len(), 0);
    assert!(!game_over);
    assert_eq!(st, Status::AllQuiet);
}

#[test]
fn game_over_absorbs_commands() {
    let grid = empty_grid(6, 6);
    let mut world = single_map_world(grid, vec![player_at(2, 2, ThingType::Prisoner)]);
    let mut state = PlayerState::new();
    let mut game_over = true;
    let deltas: Vec<(i8, i8)> = Vec::new();
    let st = take_turn_with_deltas(
        &mut world,
        &mut state,
        Ruleset::Prison,
        Command::MoveRight,
        &deltas,
        &mut game_over,
    );
    assert_eq!(world.maps[0].entities[0].position, (2, 2));
    assert!(game_over);
    assert_eq!(st, Status::AllQuiet);
}

#[test]
fn random_turn_keeps_adversaries_on_the_map() {
    // The drawn deltas stay within the ruleset's range, so a guard beside
    // the edge stays inside the grid and off walls, turn after turn.
    let mut grid = empty_grid(8, 8);
    for x in 0..8 {
        grid[0][x] = Tile::Wall;
    }
    let mut world = single_map_world(
        grid,
        vec![player_at(6, 6, ThingType::Prisoner), player_at(1, 1, ThingType::Guard)],
    );
    let mut state = PlayerState::new();
    let mut game_over = false;
    assert_valid(&world, Ruleset::Prison);
    let mut last = (1u8, 1u8);
    for _ in 0..50 {
        take_turn(&mut world, &mut state, Ruleset::Prison, Command::Other, &mut game_over);
        if game_over {
            break;
        }
        let guard = world.maps[0]
            .entities
            .iter()
            .find(|e| matches!(e.thing_type, ThingType::Guard))
            .expect("guard still present");
        let (gx, gy) = guard.position;
        assert!((gx as usize) < 8 && (gy as usize) < 8);
        assert!(gy >= 1, "guards never stand on the wall row");
        assert!((gx as i16 - last.0 as i16).abs() <= 2);
        assert!((gy as i16 - last.1 as i16).abs() <= 2);
        last = (gx, gy);
    }
}

#[test]
fn dungeon_adversaries_step_one_cell() {
    // The Dungeon ruleset draws from the smaller range: one cell per axis per turn.
    let grid = empty_grid(8, 8);
    let mut world = single_map_world(
        grid,
        vec![player_at(6, 6, ThingType::Player), player_at(1, 1, ThingType::Enemy)],
    );
    let mut state = PlayerState::new();
    let mut game_over = false;
    assert_valid(&world, Ruleset::Dungeon);
    let mut last = (1u8, 1u8);
    for _ in 0..50 {
        take_turn(&mut world, &mut state, Ruleset::Dungeon, Command::Other, &mut game_over);
        if game_over {
            break;
        }
        let enemy = world.maps[0]
            .entities
            .iter()
            .find(|e| matches!(e.thing_type, ThingType::Enemy))
            .expect("enemy still present");
        let (ex, ey) = enemy.position;
        assert!((ex as i16 - last.0 as i16).abs() <= 1);
        assert!((ey as i16 - last.1 as i16).abs() <= 1);
        last = (ex, ey);
    }
}

#[test]
fn quit_command_is_a_no_op() {
    let grid = empty_grid(6, 6);
    let mut world = single_map_world(
        grid,
        vec![player_at(2, 2, ThingType::Prisoner), player_at(4, 4, ThingType::Guard)],
    );
    let mut state = PlayerState::new();
    let mut game_over = false;
    assert_valid(&world, Ruleset::Prison);
    let st = take_turn(&mut world, &mut state, Ruleset::Prison, Command::Quit, &mut game_over);
    assert_eq!(world.maps[0].entities[0].position, (2, 2));
    assert_eq!(world.maps[0].entities[1].position, (4, 4));
    assert_eq!(st, Status::AllQuiet);
    assert!(!game_over);
}

#[test]
fn stairs_relocate_the_player() {
    // Dungeon ruleset: stepping on stairs moves the player to the stairs' target
    // map and position, with no status message.
    let mut grid = empty_grid(6, 6);
    grid[2][3] = Tile::Stairs { target_map: 1, target_x: 5, target_y: 4 };
    let mut world = World {
        maps: vec![
            GameMap { tiles: grid, entities: vec![player_at(2, 2, ThingType::Player)] },
            GameMap { tiles: empty_grid(6, 6), entities: vec![] },
        ],
        current_map: 0,
    };
    let mut state = PlayerState::new();
    let mut game_over = false;
    assert_valid(&world, Ruleset::Dungeon);
    let deltas: Vec<(i8, i8)> = Vec::new();
    let st = take_turn_with_deltas(
        &mut world,
        &mut state,
        Ruleset::Dungeon,
        Command::MoveRight,
        &deltas,
        &mut game_over,
    );
    assert_eq!(world.current_map, 1);
    assert_eq!(world.maps[1].entities[0].position, (5, 4));
    assert_eq!(world.maps[0].entities.len(), 0);
    assert_eq!(st, Status::AllQuiet);
    assert!(!game_over);
}
