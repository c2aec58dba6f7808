use dungeon_engine::engine::{check_targets_ok, door_entry, Ruleset, Status};
use dungeon_engine::map::{GameMap, Thing, ThingType};
use dungeon_engine::tile::{parse_tilemap, tile_of_char, DoorID, Effect, Tile};
use dungeon_engine::world::World;

fn empty_grid(width: usize, height: usize) -> Vec<Vec<Tile>> {
    let mut grid = Vec::new();
    for _ in 0..height {
        let mut row = Vec::new();
        for _ in 0..width {
            row.push(Tile::Empty);
        }
        grid.push(row);
    }
    grid
}

#[test]
fn move_entity_commits_only_legal_moves() {
    let mut grid = empty_grid(4, 4);
    grid[1][2] = Tile::Wall;
    let mut map = GameMap {
        tiles: grid,
        entities: vec![Thing { position: (1, 1), thing_type: ThingType::Player }],
    };
    // Into a wall: rejected, no mutation.
    assert!(!map.move_entity(0, 1, 0));
    assert_eq!(map.entities[0].position, (1, 1));
    // Off the left edge: rejected.
    assert!(!map.move_entity(0, -2, 0));
    assert_eq!(map.entities[0].position, (1, 1));
    // Off the bottom edge: rejected.
    assert!(!map.move_entity(0, 0, 3));
    assert_eq!(map.entities[0].position, (1, 1));
    // A legal diagonal: committed.
    assert!(map.move_entity(0, 1, 1));
    assert_eq!(map.entities[0].position, (2, 2));
}

#[test]
fn tile_decoding_matches_the_map_format() {
    assert_eq!(tile_of_char('#'), Tile::Wall);
    assert_eq!(tile_of_char('.'), Tile::Empty);
    assert_eq!(tile_of_char('0'), Tile::Door(DoorID(0)));
    assert_eq!(tile_of_char('4'), Tile::Door(DoorID(4)));
    assert_eq!(tile_of_char('5'), Tile::Key(DoorID(0)));
    assert_eq!(tile_of_char('9'), Tile::Key(DoorID(4)));
    // The permissive default: anything else is empty ground.
    assert_eq!(tile_of_char('x'), Tile::Empty);
    assert_eq!(tile_of_char(' '), Tile::Empty);
}

#[test]
fn parse_tilemap_lays_out_rows() {
    let grid = parse_tilemap("#..5..3#.", 3, 3);
    assert_eq!(grid.len(), 3);
    for row in &grid {
        assert_eq!(row.len(), 3);
    }
    assert_eq!(grid[0][0], Tile::Wall);
    assert_eq!(grid[0][1], Tile::Empty);
    assert_eq!(grid[1][0], Tile::Key(DoorID(0)));
    assert_eq!(grid[2][0], Tile::Door(DoorID(3)));
    assert_eq!(grid[2][1], Tile::Wall);
    assert_eq!(grid[2][2], Tile::Empty);
}

#[test]
fn parse_tilemap_pads_short_text_with_empty() {
    let grid = parse_tilemap("##", 2, 2);
    assert_eq!(grid[0][0], Tile::Wall);
    assert_eq!(grid[0][1], Tile::Wall);
    assert_eq!(grid[1][0], Tile::Empty);
    assert_eq!(grid[1][1], Tile::Empty);
}

#[test]
fn on_enter_separates_door_and_key() {
    // A tile's resolution is one effect: a door is never also a key.
    let door = Tile::Door(DoorID(2));
    let key = Tile::Key(DoorID(2));
    assert_eq!(door.on_enter(true), Effect::DoorEncounter(DoorID(2)));
    assert_eq!(key.on_enter(true), Effect::KeyPickup(DoorID(2)));
    assert_eq!(Tile::Empty.on_enter(true), Effect::NoEffect);
    // Adversaries trigger nothing.
    assert_eq!(door.on_enter(false), Effect::NoEffect);
    assert_eq!(key.on_enter(false), Effect::NoEffect);
}

#[test]
fn world_transition_moves_the_player_between_maps() {
    let mut world = World {
        maps: vec![
            GameMap {
                tiles: empty_grid(5, 5),
                entities: vec![
                    Thing { position: (2, 2), thing_type: ThingType::Prisoner },
                    Thing { position: (4, 4), thing_type: ThingType::Guard },
                ],
            },
            GameMap {
                tiles: empty_grid(5, 5),
                entities: vec![Thing { position: (0, 0), thing_type: ThingType::Guard }],
            },
        ],
        current_map: 0,
    };
    world.transition(1, 3, 1);
    assert_eq!(world.current_map, 1);
    // The player heads exactly one entity list: the new current map's.
    assert_eq!(world.maps[1].entities.len(), 2);
    assert_eq!(world.maps[1].entities[0].position, (3, 1));
    assert!(matches!(world.maps[1].entities[0].thing_type, ThingType::Prisoner));
    // It is absent from the previous map's list.
    assert_eq!(world.maps[0].entities.len(), 1);
    assert!(matches!(world.maps[0].entities[0].thing_type, ThingType::Guard));
}

#[test]
fn checkers_accept_a_sound_world_and_reject_a_broken_one() {
    let sound = World {
        maps: vec![GameMap {
            tiles: empty_grid(5, 5),
            entities: vec![Thing { position: (2, 2), thing_type: ThingType::Player }],
        }],
        current_map: 0,
    };
    assert!(sound.check_wf());
    assert!(sound.check_player_ok());
    assert!(check_targets_ok(&sound, Ruleset::Dungeon));

    // An entity standing on a wall breaks well-formedness.
    let mut walled = empty_grid(5, 5);
    walled[2][2] = Tile::Wall;
    let broken = World {
        maps: vec![GameMap {
            tiles: walled,
            entities: vec![Thing { position: (2, 2), thing_type: ThingType::Player }],
        }],
        current_map: 0,
    };
    assert!(!broken.check_wf());

    // A guard at entity 0 of the current map breaks the player sentinel.
    let headless = World {
        maps: vec![GameMap {
            tiles: empty_grid(5, 5),
            entities: vec![Thing { position: (2, 2), thing_type: ThingType::Guard }],
        }],
        current_map: 0,
    };
    assert!(headless.check_wf());
    assert!(!headless.check_player_ok());

    // Stairs pointing past the last map break the target check.
    let mut stair_grid = empty_grid(5, 5);
    stair_grid[1][1] = Tile::Stairs { target_map: 7, target_x: 0, target_y: 0 };
    let dangling = World {
        maps: vec![GameMap {
            tiles: stair_grid,
            entities: vec![Thing { position: (2, 2), thing_type: ThingType::Player }],
        }],
        current_map: 0,
    };
    assert!(dangling.check_wf());
    assert!(!check_targets_ok(&dangling, Ruleset::Dungeon));

    // A non-exit door on the last map has nowhere to lead.
    let mut door_grid = empty_grid(5, 5);
    door_grid[1][1] = Tile::Door(DoorID(0));
    let dead_end = World {
        maps: vec![GameMap {
            tiles: door_grid,
            entities: vec![Thing { position: (2, 2), thing_type: ThingType::Player }],
        }],
        current_map: 0,
    };
    assert!(!check_targets_ok(&dead_end, Ruleset::Prison));
}

#[test]
fn door_entry_positions_are_fixed() {
    assert_eq!(door_entry(DoorID(1)), (6, 0));
    assert_eq!(door_entry(DoorID(0)), (74, 0));
    assert_eq!(door_entry(DoorID(2)), (40, 0));
}

#[test]
fn status_texts_match_the_game_messages() {
    assert_eq!(Status::GuardHit.text(Ruleset::Prison), "A guard hit you");
    assert_eq!(Status::Died.text(Ruleset::Dungeon), "You died!");
    assert_eq!(Status::Died.text(Ruleset::Prison), "You died! Game Over");
    assert_eq!(Status::Escaped.text(Ruleset::Prison), "You made it out! Enjoy your freedom");
    assert_eq!(Status::EnteringCafeteria.text(Ruleset::Prison), "You are entering the cafeteria");
    assert_eq!(Status::EnteringTunnels.text(Ruleset::Prison), "Find your way through the tunnels");
    assert_eq!(Status::KeyCollected.text(Ruleset::Prison), "You collected a key!");
    assert_eq!(Status::AllQuiet.text(Ruleset::Prison), "");
}

#[test]
fn styling_is_a_pure_function_of_the_kind() {
    assert_eq!(Tile::Wall.look(), '#');
    assert_eq!(Tile::Empty.look(), '.');
    assert_eq!(Tile::Door(DoorID(0)).look(), '>');
    assert_eq!(Tile::Key(DoorID(0)).look(), '*');
    assert_eq!(ThingType::Prisoner.look(), '@');
    assert_eq!(ThingType::Guard.look(), 'G');
    assert_eq!(ThingType::Player.look(), '@');
    assert_eq!(ThingType::Enemy.look(), 'G');
}
