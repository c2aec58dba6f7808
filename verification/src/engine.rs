//! The turn engine: one input command mutates the world and player state for
//! exactly one turn — player move, adversary moves, collision check, then
//! tile-effect resolution — producing a status message and a possibly-updated
//! game-over flag.

use vstd::prelude::*;
use crate::map::{MapModel, Thing};
use crate::tile::{DoorID, Effect, Tile};
use crate::world::{World, WorldModel};

verus! {

/// One discrete input command, as the input adapter hands it over.
#[derive(Clone, Copy, PartialEq, Eq, Structural, Debug)]
pub enum Command {
    MoveUp,
    MoveDown,
    MoveLeft,
    MoveRight,
    Quit,
    Other,
}

/// The two rule variants of the game. `Dungeon` is the simple variant:
/// adversaries step one cell per turn and any collision kills outright.
/// `Prison` is the key/door escape variant: adversaries step up to two
/// cells, a hit costs 50 health, and door 3 is the winning exit.
#[derive(Clone, Copy, PartialEq, Eq, Structural, Debug)]
pub enum Ruleset {
    Dungeon,
    Prison,
}

impl Ruleset {
    /// Largest coordinate delta an adversary may draw per axis per turn.
    pub open spec fn spec_adversary_range(self) -> i8 {
        if self is Dungeon {
            1
        } else {
            2
        }
    }

    pub fn adversary_range(&self) -> (r: i8)
        ensures
            r == self.spec_adversary_range(),
    {
        match self {
            Ruleset::Dungeon => 1,
            Ruleset::Prison => 2,
        }
    }

    /// Health lost per adversary standing on the player after the moves.
    pub open spec fn spec_damage(self) -> usize {
        if self is Dungeon {
            100
        } else {
            50
        }
    }

    pub fn damage(&self) -> (r: usize)
        ensures
            r == self.spec_damage(),
    {
        match self {
            Ruleset::Dungeon => 100,
            Ruleset::Prison => 50,
        }
    }

    /// The door that wins the game when stepped on, if the variant has one.
    pub open spec fn spec_exit_door(self) -> Option<DoorID> {
        if self is Prison {
            Some(DoorID(3))
        } else {
            None
        }
    }

    /// Whether stepping on door `id` wins the game under this ruleset.
    pub open spec fn spec_is_exit(self, id: DoorID) -> bool {
        self.spec_exit_door() == Some(id)
    }

    pub fn is_exit(&self, id: DoorID) -> (r: bool)
        ensures
            r == self.spec_is_exit(id),
    {
        match self {
            Ruleset::Dungeon => false,
            Ruleset::Prison => id == DoorID(3),
        }
    }
}

/// The status line produced by a turn.
#[derive(Clone, Copy, PartialEq, Eq, Structural, Debug)]
pub enum Status {
    AllQuiet,
    GuardHit,
    Died,
    Escaped,
    EnteringInfirmary,
    EnteringCafeteria,
    EnteringTunnels,
    DoorLocked,
    KeyCollected,
}

impl Status {
    /// The status line's text. The death message differs between the two
    /// rulesets.
    pub fn text(&self, rs: Ruleset) -> (r: &'static str)
        ensures
            *self is AllQuiet ==> r@ == ""@,
            *self is GuardHit ==> r@ == "A guard hit you"@,
            *self is Died && rs is Dungeon ==> r@ == "You died!"@,
            *self is Died && rs is Prison ==> r@ == "You died! Game Over"@,
            *self is Escaped ==> r@ == "You made it out! Enjoy your freedom"@,
            *self is EnteringInfirmary ==> r@ == "You are entering the infirmary"@,
            *self is EnteringCafeteria ==> r@ == "You are entering the cafeteria"@,
            *self is EnteringTunnels ==> r@ == "Find your way through the tunnels"@,
            *self is DoorLocked ==> r@ == "You need a key or the right key to open this door!"@,
            *self is KeyCollected ==> r@ == "You collected a key!"@,
    {
        match (self, rs) {
            (Status::AllQuiet, _) => "",
            (Status::GuardHit, _) => "A guard hit you",
            (Status::Died, Ruleset::Dungeon) => "You died!",
            (Status::Died, Ruleset::Prison) => "You died! Game Over",
            (Status::Escaped, _) => "You made it out! Enjoy your freedom",
            (Status::EnteringInfirmary, _) => "You are entering the infirmary",
            (Status::EnteringCafeteria, _) => "You are entering the cafeteria",
            (Status::EnteringTunnels, _) => "Find your way through the tunnels",
            (Status::DoorLocked, _) => "You need a key or the right key to open this door!",
            (Status::KeyCollected, _) => "You collected a key!",
        }
    }
}

/// The player's progress: collected keys and remaining health.
pub struct PlayerState {
    pub keys: Vec<DoorID>,
    pub health: usize,
}

/// Mathematical model of the player's progress.
#[verifier::ext_equal]
pub struct StateModel {
    pub keys: Seq<DoorID>,
    pub health: int,
}

impl View for PlayerState {
    type V = StateModel;

    open spec fn view(&self) -> StateModel {
        StateModel { keys: self.keys@, health: self.health as int }
    }
}

impl StateModel {
    pub open spec fn wf(self) -> bool {
        0 <= self.health <= 100
    }
}

impl PlayerState {
    /// A fresh player: no keys, full health.
    pub fn new() -> (s: PlayerState)
        ensures
            s@.keys.len() == 0,
            s@.health == 100,
            s@.wf(),
    {
        PlayerState { keys: Vec::new(), health: 100 }
    }

    /// Whether the player holds the key for door `id`.
    pub fn has_key(&self, id: DoorID) -> (r: bool)
        ensures
            r == self@.keys.contains(id),
    {
        let mut i: usize = 0;
        while i < self.keys.len()
            invariant
                0 <= i <= self.keys.len(),
                forall|j: int| 0 <= j < i ==> self.keys@[j] != id,
            decreases self.keys.len() - i,
        {
            if self.keys[i] == id {
                return true;
            }
            i += 1;
        }
        false
    }
}

/// The delta a directional command stands for; non-directional commands
/// stand still.
pub open spec fn spec_delta(cmd: Command) -> (int, int) {
    match cmd {
        Command::MoveLeft => (-1, 0),
        Command::MoveRight => (1, 0),
        Command::MoveUp => (0, -1),
        Command::MoveDown => (0, 1),
        _ => (0, 0),
    }
}

pub fn delta_of(cmd: Command) -> (r: (i8, i8))
    ensures
        r.0 as int == spec_delta(cmd).0,
        r.1 as int == spec_delta(cmd).1,
{
    match cmd {
        Command::MoveLeft => (-1, 0),
        Command::MoveRight => (1, 0),
        Command::MoveUp => (0, -1),
        Command::MoveDown => (0, 1),
        _ => (0, 0),
    }
}

/// The fixed entry position a door drops the player at on the next map.
pub open spec fn spec_door_entry(id: DoorID) -> (u8, u8) {
    if id == DoorID(1) {
        (6, 0)
    } else if id == DoorID(0) {
        (74, 0)
    } else {
        (40, 0)
    }
}

pub fn door_entry(id: DoorID) -> (r: (u8, u8))
    ensures
        r == spec_door_entry(id),
{
    if id == DoorID(1) {
        (6, 0)
    } else if id == DoorID(0) {
        (74, 0)
    } else {
        (40, 0)
    }
}

/// The status line announced when an unlocked door is walked through.
pub open spec fn spec_door_status(id: DoorID) -> Status {
    if id == DoorID(1) {
        Status::EnteringInfirmary
    } else if id == DoorID(0) {
        Status::EnteringCafeteria
    } else {
        Status::EnteringTunnels
    }
}

pub fn door_status(id: DoorID) -> (r: Status)
    ensures
        r == spec_door_status(id),
{
    if id == DoorID(1) {
        Status::EnteringInfirmary
    } else if id == DoorID(0) {
        Status::EnteringCafeteria
    } else {
        Status::EnteringTunnels
    }
}

/// The adversaries moved in ascending index order, entity `i` by
/// `deltas[i - 1]`, each failing move silently ignored. Index 0 — the
/// player — is never touched here.
pub open spec fn spec_move_adversaries(m: MapModel, deltas: Seq<(i8, i8)>, i: int) -> MapModel
    decreases m.entities.len() - i,
{
    if i < 1 || i >= m.entities.len() || deltas.len() < m.entities.len() - 1 {
        m
    } else {
        spec_move_adversaries(
            m.move_result(i, deltas[i - 1].0 as int, deltas[i - 1].1 as int),
            deltas,
            i + 1,
        )
    }
}

/// Health, game-over flag and status line accumulated by the collision
/// check.
#[verifier::ext_equal]
pub struct CollisionModel {
    pub health: int,
    pub game_over: bool,
    pub status: Status,
}

pub open spec fn spec_sat_sub(h: int, d: int) -> int {
    if h >= d {
        h - d
    } else {
        0
    }
}

/// The effect of one adversary on the collision accumulator: an adversary
/// standing on the player costs `damage` health (never below zero); at zero
/// health the game is over.
pub open spec fn spec_collide_one(c: CollisionModel, ent: Thing, ppos: (u8, u8), rs: Ruleset) -> CollisionModel {
    if ent.thing_type.spec_is_adversary() && ent.position.0 == ppos.0 && ent.position.1
        == ppos.1 {
        let h2 = spec_sat_sub(c.health, rs.spec_damage() as int);
        if h2 == 0 {
            CollisionModel { health: 0, game_over: true, status: Status::Died }
        } else {
            CollisionModel { health: h2, game_over: c.game_over, status: Status::GuardHit }
        }
    } else {
        c
    }
}

/// The collision check folded over entities `i..`, in index order.
pub open spec fn spec_collisions(
    c: CollisionModel,
    entities: Seq<Thing>,
    ppos: (u8, u8),
    rs: Ruleset,
    i: int,
) -> CollisionModel
    decreases entities.len() - i,
{
    if i < 1 || i >= entities.len() {
        c
    } else {
        spec_collisions(spec_collide_one(c, entities[i], ppos, rs), entities, ppos, rs, i + 1)
    }
}

/// The full result of one turn.
#[verifier::ext_equal]
pub struct TurnModel {
    pub world: WorldModel,
    pub state: StateModel,
    pub game_over: bool,
    pub status: Status,
}

/// A single tile's transition targets are sane inside world `w`: stairs
/// point at a passable in-bounds position of an existing map, and a
/// non-exit door on map `m` can drop the player on a passable in-bounds
/// entry position of map `m + 1`.
pub open spec fn spec_tile_target_ok(w: WorldModel, m: int, rs: Ruleset, t: Tile) -> bool {
    match t {
        Tile::Stairs { target_map, target_x, target_y } => {
            &&& 0 <= target_map < w.maps.len()
            &&& w.maps[target_map as int].in_bounds(target_x as int, target_y as int)
            &&& w.maps[target_map as int].tile_at(target_x as int, target_y as int).spec_passable()
        },
        Tile::Door(id) => rs.spec_is_exit(id) || {
            &&& m + 1 < w.maps.len()
            &&& w.maps[m + 1].in_bounds(spec_door_entry(id).0 as int, spec_door_entry(id).1 as int)
            &&& w.maps[m + 1].tile_at(
                spec_door_entry(id).0 as int,
                spec_door_entry(id).1 as int,
            ).spec_passable()
        },
        _ => true,
    }
}

/// Every tile of map `m` has sane transition targets.
pub open spec fn spec_map_targets_ok(w: WorldModel, m: int, rs: Ruleset) -> bool {
    forall|x: int, y: int|
        0 <= x < w.maps[m].width() && 0 <= y < w.maps[m].height() ==> spec_tile_target_ok(
            w,
            m,
            rs,
            #[trigger] w.maps[m].tile_at(x, y),
        )
}

/// Every tile of every map has sane transition targets.
pub open spec fn spec_targets_ok(w: WorldModel, rs: Ruleset) -> bool {
    forall|m: int| 0 <= m < w.maps.len() ==> #[trigger] spec_map_targets_ok(w, m, rs)
}

/// Resolution of the tile the player ended the turn on. `w` is the world
/// after all moves, `s` the player state after collision damage, `c` the
/// collision outcome. Door and stairs are resolved before key pickup;
/// exactly one case applies.
pub open spec fn spec_tile_effect(w: WorldModel, s: StateModel, rs: Ruleset, c: CollisionModel) -> TurnModel {
    let ppos = w.cur().entities[0].position;
    let tile = w.cur().tile_at(ppos.0 as int, ppos.1 as int);
    match tile {
        Tile::Stairs { target_map, target_x, target_y } => TurnModel {
            world: w.transition_result(target_map as int, target_x, target_y),
            state: s,
            game_over: c.game_over,
            status: c.status,
        },
        Tile::Door(id) => {
            if rs.spec_is_exit(id) {
                TurnModel { world: w, state: s, game_over: true, status: Status::Escaped }
            } else if s.keys.contains(id) {
                TurnModel {
                    world: w.transition_result(
                        w.current_map + 1,
                        spec_door_entry(id).0,
                        spec_door_entry(id).1,
                    ),
                    state: s,
                    game_over: c.game_over,
                    status: spec_door_status(id),
                }
            } else {
                TurnModel { world: w, state: s, game_over: c.game_over, status: Status::DoorLocked }
            }
        },
        Tile::Key(id) => {
            let m = w.cur();
            let m2 = MapModel {
                tiles: m.tiles.update(
                    ppos.1 as int,
                    m.tiles[ppos.1 as int].update(ppos.0 as int, Tile::Empty),
                ),
                entities: m.entities,
            };
            TurnModel {
                world: WorldModel {
                    maps: w.maps.update(w.current_map, m2),
                    current_map: w.current_map,
                },
                state: StateModel { keys: s.keys.push(id), health: s.health },
                game_over: c.game_over,
                status: Status::KeyCollected,
            }
        },
        _ => TurnModel { world: w, state: s, game_over: c.game_over, status: c.status },
    }
}

/// A committed or rejected move changes at most the moved entity's
/// position: the grid, the entity count, every other entity, and every
/// entity's kind stay as they were, and well-formedness is preserved.
proof fn lemma_move_result_props(m: MapModel, which: int, dx: int, dy: int)
    requires
        m.wf(),
        0 <= which < m.entities.len(),
    ensures
        m.move_result(which, dx, dy).wf(),
        m.move_result(which, dx, dy).tiles == m.tiles,
        m.move_result(which, dx, dy).entities.len() == m.entities.len(),
        forall|j: int|
            0 <= j < m.entities.len() && j != which ==> m.move_result(which, dx, dy).entities[j]
                == m.entities[j],
        forall|j: int|
            0 <= j < m.entities.len() ==> (#[trigger] m.move_result(
                which,
                dx,
                dy,
            ).entities[j]).thing_type == m.entities[j].thing_type,
{
    let r = m.move_result(which, dx, dy);
    if m.can_move(which, dx, dy) {
        assert forall|i: int| 0 <= i < r.entities.len() implies r.entity_ok(
            #[trigger] r.entities[i],
        ) by {
            if i != which {
                assert(r.entities[i] == m.entities[i]);
            }
        }
    }
}

/// Moving the adversaries preserves the grid, the entity count, every
/// entity's kind, the untouched prefix (the player among it), and
/// well-formedness.
proof fn lemma_move_adversaries_props(m: MapModel, deltas: Seq<(i8, i8)>, i: int)
    requires
        m.wf(),
        1 <= i,
    ensures
        spec_move_adversaries(m, deltas, i).wf(),
        spec_move_adversaries(m, deltas, i).tiles == m.tiles,
        spec_move_adversaries(m, deltas, i).entities.len() == m.entities.len(),
        forall|j: int|
            0 <= j < i && j < m.entities.len() ==> spec_move_adversaries(m, deltas, i).entities[j]
                == m.entities[j],
        forall|j: int|
            0 <= j < m.entities.len() ==> (#[trigger] spec_move_adversaries(
                m,
                deltas,
                i,
            ).entities[j]).thing_type == m.entities[j].thing_type,
    decreases m.entities.len() - i,
{
    if i < 1 || i >= m.entities.len() || deltas.len() < m.entities.len() - 1 {
    } else {
        let m1 = m.move_result(i, deltas[i - 1].0 as int, deltas[i - 1].1 as int);
        lemma_move_result_props(m, i, deltas[i - 1].0 as int, deltas[i - 1].1 as int);
        lemma_move_adversaries_props(m1, deltas, i + 1);
    }
}

/// Transition-target sanity depends only on the tile grids, not on the
/// entities: it transfers between worlds whose maps hold equal grids.
proof fn lemma_targets_ok_same_tiles(w1: WorldModel, w2: WorldModel, rs: Ruleset)
    requires
        spec_targets_ok(w1, rs),
        w1.maps.len() == w2.maps.len(),
        forall|m: int| 0 <= m < w1.maps.len() ==> (#[trigger] w2.maps[m]).tiles == w1.maps[m].tiles,
    ensures
        spec_targets_ok(w2, rs),
{
    assert forall|m: int| 0 <= m < w2.maps.len() implies #[trigger] spec_map_targets_ok(
        w2,
        m,
        rs,
    ) by {
        assert(spec_map_targets_ok(w1, m, rs));
        assert forall|x: int, y: int|
            0 <= x < w2.maps[m].width() && 0 <= y < w2.maps[m].height() implies spec_tile_target_ok(
            w2,
            m,
            rs,
            #[trigger] w2.maps[m].tile_at(x, y),
        ) by {
            assert(w2.maps[m].tile_at(x, y) == w1.maps[m].tile_at(x, y));
            assert(spec_tile_target_ok(w1, m, rs, w1.maps[m].tile_at(x, y)));
        }
    }
}

/// Clearing one cell to `Empty` preserves transition-target sanity: the
/// cleared cell imposes no condition of its own, and any target that
/// pointed at it still points at a passable cell.
proof fn lemma_targets_ok_tile_cleared(w: WorldModel, w2: WorldModel, rs: Ruleset, mi: int, x: int, y: int)
    requires
        spec_targets_ok(w, rs),
        w.wf(),
        0 <= mi < w.maps.len(),
        w.maps[mi].in_bounds(x, y),
        w2.maps.len() == w.maps.len(),
        w2.current_map == w.current_map,
        forall|m: int| 0 <= m < w.maps.len() && m != mi ==> (#[trigger] w2.maps[m]).tiles == w.maps[m].tiles,
        w2.maps[mi].tiles == w.maps[mi].tiles.update(y, w.maps[mi].tiles[y].update(x, Tile::Empty)),
    ensures
        spec_targets_ok(w2, rs),
{
    assert(w2.maps[mi].tiles.len() == w.maps[mi].tiles.len());
    assert(w2.maps[mi].tiles[y].len() == w.maps[mi].tiles[y].len());
    assert forall|m: int| 0 <= m < w2.maps.len() implies #[trigger] spec_map_targets_ok(
        w2,
        m,
        rs,
    ) by {
        assert(spec_map_targets_ok(w, m, rs));
        assert(w2.maps[m].width() == w.maps[m].width());
        assert(w2.maps[m].height() == w.maps[m].height());
        assert forall|tx: int, ty: int|
            0 <= tx < w2.maps[m].width() && 0 <= ty < w2.maps[m].height() implies spec_tile_target_ok(
            w2,
            m,
            rs,
            #[trigger] w2.maps[m].tile_at(tx, ty),
        ) by {
            let t2 = w2.maps[m].tile_at(tx, ty);
            if m == mi && tx == x && ty == y {
                assert(t2 == Tile::Empty);
            } else {
                assert(t2 == w.maps[m].tile_at(tx, ty));
                assert(spec_tile_target_ok(w, m, rs, t2));
                match t2 {
                    Tile::Stairs { target_map, target_x, target_y } => {
                        let tm = target_map as int;
                        assert(w2.maps[tm].width() == w.maps[tm].width());
                        assert(w2.maps[tm].height() == w.maps[tm].height());
                        if target_map as int == mi && target_x as int == x && target_y as int
                            == y {
                            assert(w2.maps[mi].tile_at(x, y) == Tile::Empty);
                        } else {
                            assert(w2.maps[target_map as int].tile_at(
                                target_x as int,
                                target_y as int,
                            ) == w.maps[target_map as int].tile_at(target_x as int, target_y as int));
                        }
                    },
                    Tile::Door(id) => {
                        if !rs.spec_is_exit(id) {
                            let ex = spec_door_entry(id).0 as int;
                            let ey = spec_door_entry(id).1 as int;
                            assert(w2.maps[m + 1].width() == w.maps[m + 1].width());
                            assert(w2.maps[m + 1].height() == w.maps[m + 1].height());
                            if m + 1 == mi && ex == x && ey == y {
                                assert(w2.maps[mi].tile_at(x, y) == Tile::Empty);
                            } else {
                                assert(w2.maps[m + 1].tile_at(ex, ey) == w.maps[m + 1].tile_at(
                                    ex,
                                    ey,
                                ));
                            }
                        }
                    },
                    _ => {},
                }
            }
        }
    }
}

/// The player sentinel survives replacing the active map's entity list by
/// one of equal length and pointwise equal kinds.
proof fn lemma_player_ok_update_cur(w: WorldModel, m2: MapModel)
    requires
        w.wf(),
        w.player_ok(),
        m2.entities.len() == w.cur().entities.len(),
        forall|j: int|
            0 <= j < m2.entities.len() ==> (#[trigger] m2.entities[j]).thing_type == w.cur().entities[j].thing_type,
    ensures
        (WorldModel { maps: w.maps.update(w.current_map, m2), current_map: w.current_map }).player_ok(),
{
    let w2 = WorldModel { maps: w.maps.update(w.current_map, m2), current_map: w.current_map };
    assert(w2.cur().entities[0].thing_type == w.cur().entities[0].thing_type);
    assert forall|m: int, i: int|
        0 <= m < w2.maps.len() && 0 <= i < w2.maps[m].entities.len() && !(m == w2.current_map && i
            == 0) implies !(#[trigger] w2.maps[m].entities[i]).thing_type.spec_is_player() by {
        if m == w.current_map {
            assert(w2.maps[m].entities[i].thing_type == w.maps[m].entities[i].thing_type);
            assert(!w.maps[m].entities[i].thing_type.spec_is_player());
        } else {
            assert(w2.maps[m].entities[i] == w.maps[m].entities[i]);
        }
    }
}

/// One whole turn: a game already over — or a quit command — changes
/// nothing; otherwise the player moves by the command's delta, each
/// adversary by its drawn delta, collisions are checked against the
/// post-move positions, and the player's tile is resolved.
pub open spec fn spec_take_turn(
    w: WorldModel,
    s: StateModel,
    rs: Ruleset,
    cmd: Command,
    deltas: Seq<(i8, i8)>,
    game_over: bool,
) -> TurnModel {
    if game_over || cmd is Quit {
        TurnModel { world: w, state: s, game_over, status: Status::AllQuiet }
    } else {
        let d = spec_delta(cmd);
        let m1 = w.cur().move_result(0, d.0, d.1);
        let m2 = spec_move_adversaries(m1, deltas, 1);
        let w2 = WorldModel { maps: w.maps.update(w.current_map, m2), current_map: w.current_map };
        let c0 = CollisionModel { health: s.health, game_over: false, status: Status::AllQuiet };
        let c = spec_collisions(c0, m2.entities, m2.entities[0].position, rs, 1);
        let s1 = StateModel { keys: s.keys, health: c.health };
        spec_tile_effect(w2, s1, rs, c)
    }
}

/// One turn of the game with the adversaries' draws handed in: resolve the
/// command to a delta, move the player, move each adversary by its delta,
/// check collisions against the post-move positions, then resolve the tile
/// the player stands on. The result is exactly `spec_take_turn` of the
/// inputs, and every invariant of the world and the player state is
/// preserved.
pub fn take_turn_with_deltas(
    world: &mut World,
    state: &mut PlayerState,
    rs: Ruleset,
    cmd: Command,
    deltas: &Vec<(i8, i8)>,
    game_over: &mut bool,
) -> (status: Status)
    requires
        old(world)@.wf(),
        old(world)@.player_ok(),
        spec_targets_ok(old(world)@, rs),
        old(state)@.wf(),
        deltas@.len() >= old(world)@.cur().entities.len() - 1,
    ensures
        ({
            let r = spec_take_turn(old(world)@, old(state)@, rs, cmd, deltas@, *old(game_over));
            &&& final(world)@ == r.world
            &&& final(state)@ == r.state
            &&& *final(game_over) == r.game_over
            &&& status == r.status
        }),
        final(world)@.wf(),
        final(world)@.player_ok(),
        spec_targets_ok(final(world)@, rs),
        final(state)@.wf(),
{
    if *game_over || matches!(cmd, Command::Quit) {
        return Status::AllQuiet;
    }
    let ghost w0 = world@;
    let ghost s0 = state@;
    let (dx, dy) = delta_of(cmd);
    let cur = world.current_map;

    // Step 1 and 2: resolve the command and move the player.
    world.move_in_cur(0, dx, dy);
    let ghost m1 = w0.cur().move_result(0, dx as int, dy as int);
    proof {
        lemma_move_result_props(w0.cur(), 0, dx as int, dy as int);
        assert(world@.cur() == m1);
    }

    // Step 3: move every adversary by its drawn delta, in index order.
    let n = world.cur_entity_count();
    let ghost m2 = spec_move_adversaries(m1, deltas@, 1);
    let mut i: usize = 1;
    while i < n
        invariant
            world@.wf(),
            world@.current_map == cur as int,
            world@.maps.len() == w0.maps.len(),
            0 <= (cur as int) < w0.maps.len(),
            forall|m: int|
                0 <= m < w0.maps.len() && m != cur as int ==> world@.maps[m] == w0.maps[m],
            1 <= i as int <= n as int,
            n as int == world@.cur().entities.len(),
            world@.cur().entities.len() == m1.entities.len(),
            deltas@.len() >= m1.entities.len() - 1,
            spec_move_adversaries(world@.cur(), deltas@, i as int) == m2,
        decreases n - i,
    {
        let d = deltas[i - 1];
        proof {
            assert(spec_move_adversaries(world@.cur(), deltas@, i as int)
                == spec_move_adversaries(
                world@.cur().move_result(i as int, d.0 as int, d.1 as int),
                deltas@,
                i as int + 1,
            ));
        }
        world.move_in_cur(i, d.0, d.1);
        i += 1;
    }
    proof {
        assert(spec_move_adversaries(world@.cur(), deltas@, i as int) == world@.cur());
        assert(world@.cur() == m2);
        lemma_move_adversaries_props(m1, deltas@, 1);
        assert(m2.entities[0] == m1.entities[0]);
        assert forall|j: int|
            0 <= j < m2.entities.len() implies (#[trigger] m2.entities[j]).thing_type
            == w0.cur().entities[j].thing_type by {
            assert(m2.entities[j].thing_type == m1.entities[j].thing_type);
        }
        lemma_player_ok_update_cur(w0, m2);
        assert(world@.maps =~= w0.maps.update(cur as int, m2));
        assert(world@ =~= (WorldModel {
            maps: w0.maps.update(cur as int, m2),
            current_map: cur as int,
        }));
        assert(world@.player_ok());
        lemma_targets_ok_same_tiles(w0, world@, rs);
    }
    let ghost w2 = world@;

    // Step 4 and 5: collision check against the post-move positions.
    let p = world.player_pos();
    let px = p.0;
    let py = p.1;
    proof {
        assert((px, py) == m2.entities[0].position);
    }
    let dmg = rs.damage();
    let mut health = state.health;
    let mut go = false;
    let mut st = Status::AllQuiet;
    let ghost c0 = CollisionModel { health: s0.health, game_over: false, status: Status::AllQuiet };
    let ghost cend = spec_collisions(c0, m2.entities, (px, py), rs, 1);
    let mut j: usize = 1;
    while j < n
        invariant
            world@ == w2,
            w2.wf(),
            w2.cur() == m2,
            world@.current_map == cur as int,
            0 <= (cur as int) < world@.maps.len(),
            1 <= j as int <= n as int,
            n as int == m2.entities.len(),
            dmg == rs.spec_damage(),
            0 <= health <= 100,
            cend == spec_collisions(
                CollisionModel { health: health as int, game_over: go, status: st },
                m2.entities,
                (px, py),
                rs,
                j as int,
            ),
        decreases n - j,
    {
        proof {
            assert(world@.cur() == m2);
            assert(world.maps@[cur as int]@ == world@.maps[cur as int]);
        }
        let e = world.maps[cur].entities[j];
        let ghost cj = CollisionModel { health: health as int, game_over: go, status: st };
        proof {
            assert(e == m2.entities[j as int]);
            assert(spec_collisions(cj, m2.entities, (px, py), rs, j as int)
                == spec_collisions(
                spec_collide_one(cj, e, (px, py), rs),
                m2.entities,
                (px, py),
                rs,
                j as int + 1,
            ));
        }
        if e.thing_type.is_adversary() && e.position.0 == px && e.position.1 == py {
            health = if health >= dmg {
                health - dmg
            } else {
                0
            };
            if health == 0 {
                go = true;
                st = Status::Died;
            } else {
                st = Status::GuardHit;
            }
        }
        proof {
            assert((CollisionModel { health: health as int, game_over: go, status: st })
                =~= spec_collide_one(cj, e, (px, py), rs));
        }
        j += 1;
    }
    proof {
        assert(cend == (CollisionModel { health: health as int, game_over: go, status: st }));
    }
    state.health = health;
    let ghost s1 = StateModel { keys: s0.keys, health: cend.health };
    proof {
        assert(state@ =~= s1);
    }

    // Step 6: resolve the tile the player ended on. Door and stairs are
    // checked before key, since a tile is one or the other.
    proof {
        assert(w2.cur().entity_ok(m2.entities[0]));
        assert(spec_map_targets_ok(w2, cur as int, rs));
        assert(spec_tile_target_ok(w2, cur as int, rs, w2.cur().tile_at(px as int, py as int)));
    }
    let t = world.cur_tile(px, py);
    match t {
        Tile::Stairs { target_map, target_x, target_y } => {
            world.transition(target_map, target_x, target_y);
            *game_over = go;
            proof {
                lemma_targets_ok_same_tiles(w2, world@, rs);
            }
            st
        },
        Tile::Door(id) => {
            if rs.is_exit(id) {
                *game_over = true;
                Status::Escaped
            } else if state.has_key(id) {
                let total = world.maps.len();
                proof {
                    assert(!rs.spec_is_exit(id));
                    assert((cur as int) + 1 < w2.maps.len());
                    assert(w2.maps.len() == total as int);
                }
                let entry = door_entry(id);
                world.transition(cur + 1, entry.0, entry.1);
                *game_over = go;
                proof {
                    lemma_targets_ok_same_tiles(w2, world@, rs);
                }
                door_status(id)
            } else {
                *game_over = go;
                Status::DoorLocked
            }
        },
        Tile::Key(id) => {
            state.keys.push(id);
            world.clear_cur_tile(px, py);
            *game_over = go;
            proof {
                let r = spec_take_turn(w0, s0, rs, cmd, deltas@, false);
                assert(world@ =~~= r.world);
                assert(state@ =~= r.state);
                lemma_targets_ok_tile_cleared(w2, world@, rs, cur as int, px as int, py as int);
                lemma_player_ok_update_cur(w2, world@.cur());
                assert(world@ =~= (WorldModel {
                    maps: w2.maps.update(cur as int, world@.cur()),
                    current_map: cur as int,
                }));
            }
            Status::KeyCollected
        },
        _ => {
            *game_over = go;
            st
        },
    }
}

/// A single bad tile refutes `spec_targets_ok`.
proof fn lemma_targets_witness(w: WorldModel, m: int, x: int, y: int, rs: Ruleset)
    requires
        0 <= m < w.maps.len(),
        0 <= x < w.maps[m].width(),
        0 <= y < w.maps[m].height(),
        !spec_tile_target_ok(w, m, rs, w.maps[m].tile_at(x, y)),
    ensures
        !spec_targets_ok(w, rs),
{
    assert(!spec_map_targets_ok(w, m, rs));
}

/// Whether every tile of every map has sane transition targets under the
/// ruleset (see `spec_targets_ok`): the precondition a host must establish
/// once, before the first turn, for the world it has built.
pub fn check_targets_ok(world: &World, rs: Ruleset) -> (r: bool)
    requires
        world@.wf(),
    ensures
        r == spec_targets_ok(world@, rs),
{
    let total = world.maps.len();
    let mut m: usize = 0;
    while m < total
        invariant
            world@.wf(),
            total == world@.maps.len(),
            0 <= m <= total,
            forall|m2: int| 0 <= m2 < m as int ==> #[trigger] spec_map_targets_ok(world@, m2, rs),
        decreases total - m,
    {
        proof {
            assert(world.maps@[m as int]@ == world@.maps[m as int]);
            assert(world@.maps[m as int].wf());
        }
        let h = world.maps[m].height();
        let w = world.maps[m].width();
        let mut y: usize = 0;
        while y < h
            invariant
                world@.wf(),
                total == world@.maps.len(),
                0 <= (m as int) < total as int,
                h == world@.maps[m as int].height(),
                w == world@.maps[m as int].width(),
                0 <= y <= h,
                forall|x2: int, y2: int|
                    0 <= x2 < world@.maps[m as int].width() && 0 <= y2 < y as int
                        ==> spec_tile_target_ok(
                        world@,
                        m as int,
                        rs,
                        #[trigger] world@.maps[m as int].tile_at(x2, y2),
                    ),
            decreases h - y,
        {
            let mut x: usize = 0;
            while x < w
                invariant
                    world@.wf(),
                    total == world@.maps.len(),
                    0 <= (m as int) < total as int,
                    h == world@.maps[m as int].height(),
                    w == world@.maps[m as int].width(),
                    0 <= (y as int) < h as int,
                    0 <= x <= w,
                    forall|x2: int, y2: int|
                        0 <= x2 < world@.maps[m as int].width() && 0 <= y2 < y as int
                            ==> spec_tile_target_ok(
                            world@,
                            m as int,
                            rs,
                            #[trigger] world@.maps[m as int].tile_at(x2, y2),
                        ),
                    forall|x2: int|
                        0 <= x2 < x as int ==> spec_tile_target_ok(
                            world@,
                            m as int,
                            rs,
                            #[trigger] world@.maps[m as int].tile_at(x2, y as int),
                        ),
                decreases w - x,
            {
                proof {
                    assert(world.maps@[m as int]@ == world@.maps[m as int]);
                }
                let t = world.maps[m].tile(x, y);
                match t {
                    Tile::Stairs { target_map, target_x, target_y } => {
                        if target_map >= total {
                        proof {
                            assert(t == world@.maps[m as int].tile_at(x as int, y as int));
                            assert(!spec_tile_target_ok(world@, m as int, rs, t));
                            lemma_targets_witness(world@, m as int, x as int, y as int, rs);
                        }
                        return false;
                        }
                        proof {
                            assert(world.maps@[target_map as int]@ == world@.maps[
                                target_map as int]);
                            assert(world@.maps[target_map as int].wf());
                        }
                        let tw = world.maps[target_map].width();
                        let th = world.maps[target_map].height();
                        if target_x as usize >= tw || target_y as usize >= th {
                        proof {
                            assert(t == world@.maps[m as int].tile_at(x as int, y as int));
                            assert(!spec_tile_target_ok(world@, m as int, rs, t));
                            lemma_targets_witness(world@, m as int, x as int, y as int, rs);
                        }
                        return false;
                        }
                        let tt = world.maps[target_map].tile(target_x as usize, target_y as usize);
                        if !tt.is_passable() {
                        proof {
                            assert(t == world@.maps[m as int].tile_at(x as int, y as int));
                            assert(!spec_tile_target_ok(world@, m as int, rs, t));
                            lemma_targets_witness(world@, m as int, x as int, y as int, rs);
                        }
                        return false;
                        }
                    },
                    Tile::Door(id) => {
                        if !rs.is_exit(id) {
                            if m + 1 >= total {
                        proof {
                            assert(t == world@.maps[m as int].tile_at(x as int, y as int));
                            assert(!spec_tile_target_ok(world@, m as int, rs, t));
                            lemma_targets_witness(world@, m as int, x as int, y as int, rs);
                        }
                        return false;
                            }
                            proof {
                                assert(world.maps@[m as int + 1]@ == world@.maps[m as int + 1]);
                                assert(world@.maps[m as int + 1].wf());
                            }
                            let entry = door_entry(id);
                            let tw = world.maps[m + 1].width();
                            let th = world.maps[m + 1].height();
                            if entry.0 as usize >= tw || entry.1 as usize >= th {
                        proof {
                            assert(t == world@.maps[m as int].tile_at(x as int, y as int));
                            assert(!spec_tile_target_ok(world@, m as int, rs, t));
                            lemma_targets_witness(world@, m as int, x as int, y as int, rs);
                        }
                        return false;
                            }
                            let tt = world.maps[m + 1].tile(entry.0 as usize, entry.1 as usize);
                            if !tt.is_passable() {
                        proof {
                            assert(t == world@.maps[m as int].tile_at(x as int, y as int));
                            assert(!spec_tile_target_ok(world@, m as int, rs, t));
                            lemma_targets_witness(world@, m as int, x as int, y as int, rs);
                        }
                        return false;
                            }
                        }
                    },
                    _ => {},
                }
                x += 1;
            }
            y += 1;
        }
        m += 1;
    }
    true
}

/// Idempotence of non-directional input: with no adversaries present, a
/// turn on an `Other` command leaves the world, the player state and the
/// game-over flag unchanged, provided the tile under the player is inert on
/// re-entry — not stairs, not a key, and not a door that is the exit or
/// whose key is held. (On such tiles the re-entry effect fires again, so
/// the claim cannot hold there.)
pub proof fn lemma_other_command_idempotent(
    w: WorldModel,
    s: StateModel,
    rs: Ruleset,
    deltas: Seq<(i8, i8)>,
)
    requires
        w.wf(),
        w.player_ok(),
        s.wf(),
        w.cur().entities.len() == 1,
        ({
            let p = w.cur().entities[0].position;
            match w.cur().tile_at(p.0 as int, p.1 as int) {
                Tile::Empty => true,
                Tile::Door(id) => !rs.spec_is_exit(id) && !s.keys.contains(id),
                _ => false,
            }
        }),
    ensures
        ({
            let r = spec_take_turn(w, s, rs, Command::Other, deltas, false);
            &&& r.world == w
            &&& r.state == s
            &&& r.game_over == false
        }),
{
    let p = w.cur().entities[0].position;
    let m1 = w.cur().move_result(0, 0, 0);
    assert(w.cur().entity_ok(w.cur().entities[0]));
    assert(w.cur().can_move(0, 0, 0));
    assert(m1.entities =~= w.cur().entities);
    assert(m1 =~= w.cur());
    let m2 = spec_move_adversaries(m1, deltas, 1);
    assert(m2 == m1);
    let w2 = WorldModel { maps: w.maps.update(w.current_map, m2), current_map: w.current_map };
    assert(w2.maps =~= w.maps);
    assert(w2 =~= w);
    let c0 = CollisionModel { health: s.health, game_over: false, status: Status::AllQuiet };
    assert(spec_collisions(c0, m2.entities, m2.entities[0].position, rs, 1) == c0);
    let s1 = StateModel { keys: s.keys, health: s.health };
    assert(s1 =~= s);
}

/// Key pickup is exactly-once: a turn that ends with the player on a key
/// tile adds exactly one key to the key set and leaves the tile — at the
/// very position the player stands on — permanently `Empty`, so re-entering
/// that position can produce no further pickup effect.
pub proof fn lemma_key_pickup_once(
    w: WorldModel,
    s: StateModel,
    rs: Ruleset,
    cmd: Command,
    deltas: Seq<(i8, i8)>,
)
    requires
        w.wf(),
        w.player_ok(),
        !(cmd is Quit),
        ({
            let d = spec_delta(cmd);
            let m2 = spec_move_adversaries(w.cur().move_result(0, d.0, d.1), deltas, 1);
            let p = m2.entities[0].position;
            m2.tile_at(p.0 as int, p.1 as int) is Key
        }),
    ensures
        ({
            let r = spec_take_turn(w, s, rs, cmd, deltas, false);
            let p = r.world.cur().entities[0].position;
            &&& r.status is KeyCollected
            &&& r.world.cur().tile_at(p.0 as int, p.1 as int) == Tile::Empty
            &&& (r.world.cur().tile_at(p.0 as int, p.1 as int)).spec_on_enter(true)
                == Effect::NoEffect
            &&& r.state.keys.len() == s.keys.len() + 1
        }),
{
    let d = spec_delta(cmd);
    let m1 = w.cur().move_result(0, d.0, d.1);
    lemma_move_result_props(w.cur(), 0, d.0, d.1);
    let m2 = spec_move_adversaries(m1, deltas, 1);
    lemma_move_adversaries_props(m1, deltas, 1);
    let w2 = WorldModel { maps: w.maps.update(w.current_map, m2), current_map: w.current_map };
    let p = m2.entities[0].position;
    assert(w2.cur() == m2);
    assert(m2.wf());
    assert(m2.entity_ok(m2.entities[0]));
    let r = spec_take_turn(w, s, rs, cmd, deltas, false);
    assert(r.world.cur().entities == m2.entities);
    assert(r.world.cur().tiles[p.1 as int] == m2.tiles[p.1 as int].update(p.0 as int, Tile::Empty));
    assert(r.world.cur().tile_at(p.0 as int, p.1 as int) == Tile::Empty);
}

/// Relies on rand::thread_rng and rand::Rng::gen_range over the inclusive
/// range `-range..=range`: the draw lies in that range. gen_range panics on
/// an empty range, which the precondition rules out.
#[verifier::external_body]
fn draw_delta(range: i8) -> (d: i8)
    requires
        0 <= range,
    ensures
        -range <= d <= range,
{
    rand::Rng::gen_range(&mut rand::thread_rng(), -range..=range)
}

/// One turn with the adversaries' deltas drawn from the shared random
/// generator: one independent pair per adversary, drawn in index order.
/// Whatever the generator returns, the outcome is `spec_take_turn` of some
/// delta sequence of the right length inside the ruleset's move range, and
/// every invariant of the world and the player state is preserved.
pub fn take_turn(
    world: &mut World,
    state: &mut PlayerState,
    rs: Ruleset,
    cmd: Command,
    game_over: &mut bool,
) -> (status: Status)
    requires
        old(world)@.wf(),
        old(world)@.player_ok(),
        spec_targets_ok(old(world)@, rs),
        old(state)@.wf(),
    ensures
        exists|deltas: Seq<(i8, i8)>|
            {
                let r = #[trigger] spec_take_turn(
                    old(world)@,
                    old(state)@,
                    rs,
                    cmd,
                    deltas,
                    *old(game_over),
                );
                &&& deltas.len() == old(world)@.cur().entities.len() - 1
                &&& (forall|k: int|
                    0 <= k < deltas.len() ==> -rs.spec_adversary_range() <= (#[trigger] deltas[k]).0
                        <= rs.spec_adversary_range() && -rs.spec_adversary_range() <= deltas[k].1
                        <= rs.spec_adversary_range())
                &&& final(world)@ == r.world
                &&& final(state)@ == r.state
                &&& *final(game_over) == r.game_over
                &&& status == r.status
            },
        final(world)@.wf(),
        final(world)@.player_ok(),
        spec_targets_ok(final(world)@, rs),
        final(state)@.wf(),
{
    let n = world.cur_entity_count();
    let range = rs.adversary_range();
    let mut deltas: Vec<(i8, i8)> = Vec::new();
    let mut k: usize = 0;
    while k < n - 1
        invariant
            n >= 1,
            0 <= k <= n - 1,
            range == rs.spec_adversary_range(),
            0 <= range,
            deltas@.len() == k,
            forall|t: int|
                0 <= t < k as int ==> -range <= (#[trigger] deltas@[t]).0 <= range && -range
                    <= deltas@[t].1 <= range,
        decreases n - 1 - k,
    {
        let a = draw_delta(range);
        let b = draw_delta(range);
        deltas.push((a, b));
        k += 1;
    }
    let st = take_turn_with_deltas(world, state, rs, cmd, &deltas, game_over);
    proof {
        let r = spec_take_turn(old(world)@, old(state)@, rs, cmd, deltas@, *old(game_over));
        assert(deltas@.len() == old(world)@.cur().entities.len() - 1);
    }
    st
}

} // verus!
