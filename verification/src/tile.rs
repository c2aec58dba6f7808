//! Terrain model: tile kinds, passability, and the effect a tile has on the
//! actor that steps onto it.

use vstd::prelude::*;

verus! {

/// Identifier linking a door tile to the key tiles that unlock it.
#[derive(Clone, Copy, PartialEq, Eq, Structural, Debug)]
pub struct DoorID(pub usize);

/// One terrain cell. A tile's kind never changes once placed, except that a
/// key tile becomes empty when the player picks the key up.
#[derive(Clone, Copy, PartialEq, Eq, Structural, Debug)]
pub enum Tile {
    /// Passable, inert ground.
    Empty,
    /// Impassable.
    Wall,
    /// Passable; stepping on it relocates the player to a fixed position on a
    /// fixed map.
    Stairs { target_map: usize, target_x: u8, target_y: u8 },
    /// Passable; stepping on it triggers an unlock check against the player's
    /// key set.
    Door(DoorID),
    /// Passable; stepping on it adds the id to the player's key set and the
    /// tile becomes `Empty`.
    Key(DoorID),
}

/// What stepping onto a tile does, as seen by the turn engine.
#[derive(Clone, Copy, PartialEq, Eq, Structural, Debug)]
pub enum Effect {
    NoEffect,
    TransitionMap { target_map: usize, target_x: u8, target_y: u8 },
    DoorEncounter(DoorID),
    KeyPickup(DoorID),
}

impl Tile {
    /// Only walls block movement.
    pub open spec fn spec_passable(self) -> bool {
        !(self is Wall)
    }

    pub fn is_passable(&self) -> (r: bool)
        ensures
            r == self.spec_passable(),
    {
        !matches!(self, Tile::Wall)
    }

    /// The effect of an actor entering this tile. Only the player triggers
    /// tile effects; adversaries walk over everything inertly.
    pub open spec fn spec_on_enter(self, actor_is_player: bool) -> Effect {
        if !actor_is_player {
            Effect::NoEffect
        } else {
            match self {
                Tile::Stairs { target_map, target_x, target_y } => Effect::TransitionMap {
                    target_map,
                    target_x,
                    target_y,
                },
                Tile::Door(id) => Effect::DoorEncounter(id),
                Tile::Key(id) => Effect::KeyPickup(id),
                _ => Effect::NoEffect,
            }
        }
    }

    pub fn on_enter(&self, actor_is_player: bool) -> (e: Effect)
        ensures
            e == self.spec_on_enter(actor_is_player),
    {
        if !actor_is_player {
            Effect::NoEffect
        } else {
            match self {
                Tile::Stairs { target_map, target_x, target_y } => Effect::TransitionMap {
                    target_map: *target_map,
                    target_x: *target_x,
                    target_y: *target_y,
                },
                Tile::Door(id) => Effect::DoorEncounter(*id),
                Tile::Key(id) => Effect::KeyPickup(*id),
                _ => Effect::NoEffect,
            }
        }
    }
}

/// The tile one map-source character decodes to: `#` is a wall, `.` is
/// empty, a digit 0 to 4 is a door with that id, a digit 5 to 9 is a key
/// opening door `digit - 5`, and any other character — the format's
/// deliberately permissive default — is empty.
pub open spec fn spec_tile_of_char(c: char) -> Tile {
    if c == '#' {
        Tile::Wall
    } else if '0' <= c <= '4' {
        Tile::Door(DoorID((c as int - '0' as int) as usize))
    } else if '5' <= c <= '9' {
        Tile::Key(DoorID((c as int - '5' as int) as usize))
    } else {
        Tile::Empty
    }
}

pub fn tile_of_char(c: char) -> (t: Tile)
    ensures
        t == spec_tile_of_char(c),
{
    if c == '#' {
        Tile::Wall
    } else if '0' <= c && c <= '4' {
        Tile::Door(DoorID(c as usize - '0' as usize))
    } else if '5' <= c && c <= '9' {
        Tile::Key(DoorID(c as usize - '5' as usize))
    } else {
        Tile::Empty
    }
}

/// Decode a character block into a `height`-row grid of `width` tiles: the
/// character at index `y * width + x` of the text gives tile `(x, y)`; where
/// the text runs short the grid stays empty.
pub fn parse_tilemap(text: &str, width: usize, height: usize) -> (grid: Vec<Vec<Tile>>)
    requires
        width * height <= usize::MAX,
    ensures
        grid@.len() == height,
        forall|y: int| 0 <= y < height ==> (#[trigger] grid@[y])@.len() == width,
        forall|y: int, x: int|
            0 <= y < height && 0 <= x < width ==> #[trigger] grid@[y]@[x] == (if y * width + x
                < text@.len() {
                spec_tile_of_char(text@[y * width + x])
            } else {
                Tile::Empty
            }),
{
    let len = text.unicode_len();
    let mut grid: Vec<Vec<Tile>> = Vec::new();
    let mut y: usize = 0;
    while y < height
        invariant
            0 <= y <= height,
            grid@.len() == y,
            len == text@.len(),
            width * height <= usize::MAX,
            forall|y2: int| 0 <= y2 < y as int ==> (#[trigger] grid@[y2])@.len() == width,
            forall|y2: int, x: int|
                0 <= y2 < y as int && 0 <= x < width ==> #[trigger] grid@[y2]@[x] == (if y2 * width
                    + x < text@.len() {
                    spec_tile_of_char(text@[y2 * width + x])
                } else {
                    Tile::Empty
                }),
        decreases height - y,
    {
        let mut row: Vec<Tile> = Vec::new();
        let mut x: usize = 0;
        while x < width
            invariant
                0 <= x <= width,
                0 <= y < height,
                row@.len() == x,
                len == text@.len(),
                width * height <= usize::MAX,
                forall|x2: int|
                    0 <= x2 < x as int ==> #[trigger] row@[x2] == (if (y as int) * width + x2
                        < text@.len() {
                        spec_tile_of_char(text@[(y as int) * width + x2])
                    } else {
                        Tile::Empty
                    }),
            decreases width - x,
        {
            proof {
                assert((y as int) * width + x < (height as int) * width) by (nonlinear_arith)
                    requires
                        0 <= (y as int) < (height as int),
                        0 <= x < width,
                ;
                assert((height as int) * width == (width as int) * height) by (nonlinear_arith);
            }
            let idx = y * width + x;
            let t = if idx < len {
                tile_of_char(text.get_char(idx))
            } else {
                Tile::Empty
            };
            row.push(t);
            x += 1;
        }
        grid.push(row);
        y += 1;
    }
    grid
}

/// Door and key effects are mutually exclusive: no tile resolves to both a
/// door encounter and a key pickup in one resolution step.
pub proof fn lemma_door_key_exclusive(t: Tile, actor_is_player: bool)
    ensures
        !((t.spec_on_enter(actor_is_player) is DoorEncounter) && (t.spec_on_enter(actor_is_player)
            is KeyPickup)),
{
}

} // verus!
