//! One map: a rectangular tile grid plus its resident entities. The map owns
//! entity-movement validation: a move is committed only when the candidate
//! position is inside the grid and on a passable tile.

use vstd::prelude::*;
use crate::tile::Tile;

verus! {

/// The kind of a movable actor. `Player` and `Prisoner` are the two
/// player-controlled kinds (one per ruleset); `Enemy` and `Guard` are the
/// corresponding adversary kinds.
#[derive(Clone, Copy, PartialEq, Eq, Structural, Debug)]
pub enum ThingType {
    Player,
    Enemy,
    Prisoner,
    Guard,
}

impl ThingType {
    pub open spec fn spec_is_player(self) -> bool {
        self is Player || self is Prisoner
    }

    pub open spec fn spec_is_adversary(self) -> bool {
        self is Enemy || self is Guard
    }

    pub fn is_player(&self) -> (r: bool)
        ensures
            r == self.spec_is_player(),
    {
        matches!(self, ThingType::Player | ThingType::Prisoner)
    }

    pub fn is_adversary(&self) -> (r: bool)
        ensures
            r == self.spec_is_adversary(),
    {
        matches!(self, ThingType::Enemy | ThingType::Guard)
    }
}

/// A movable actor: a grid position plus its kind.
#[derive(Clone, Copy, Debug)]
pub struct Thing {
    pub position: (u8, u8),
    pub thing_type: ThingType,
}

/// Mathematical model of a map: the grid as a sequence of rows and the
/// entities in their list order.
#[verifier::ext_equal]
pub struct MapModel {
    pub tiles: Seq<Seq<Tile>>,
    pub entities: Seq<Thing>,
}

impl MapModel {
    pub open spec fn width(self) -> int {
        self.tiles[0].len() as int
    }

    pub open spec fn height(self) -> int {
        self.tiles.len() as int
    }

    pub open spec fn in_bounds(self, x: int, y: int) -> bool {
        0 <= x < self.width() && 0 <= y < self.height()
    }

    pub open spec fn tile_at(self, x: int, y: int) -> Tile {
        self.tiles[y][x]
    }

    /// An entity stands inside the grid, on a passable tile.
    pub open spec fn entity_ok(self, t: Thing) -> bool {
        &&& self.in_bounds(t.position.0 as int, t.position.1 as int)
        &&& self.tile_at(t.position.0 as int, t.position.1 as int).spec_passable()
    }

    /// Well-formedness: a non-empty rectangular grid whose sides fit the
    /// `u8` coordinate space, all rows of equal width, and every entity on a
    /// passable in-bounds tile.
    pub open spec fn wf(self) -> bool {
        &&& 0 < self.height() <= 256
        &&& 0 < self.width() <= 256
        &&& forall|y: int|
            0 <= y < self.height() ==> #[trigger] self.tiles[y].len() == self.tiles[0].len()
        &&& forall|i: int|
            0 <= i < self.entities.len() ==> self.entity_ok(#[trigger] self.entities[i])
    }

    /// Whether moving entity `which` by `(dx, dy)` is allowed: the candidate
    /// position is in bounds and not a wall.
    pub open spec fn can_move(self, which: int, dx: int, dy: int) -> bool {
        let p = self.entities[which].position;
        let tx = p.0 + dx;
        let ty = p.1 + dy;
        self.in_bounds(tx, ty) && self.tile_at(tx, ty).spec_passable()
    }

    /// The map after attempting the move: either exactly one entity's
    /// position is updated, or nothing changes. Tiles never change.
    pub open spec fn move_result(self, which: int, dx: int, dy: int) -> MapModel {
        if self.can_move(which, dx, dy) {
            let t = self.entities[which];
            let moved = Thing {
                position: ((t.position.0 + dx) as u8, (t.position.1 + dy) as u8),
                thing_type: t.thing_type,
            };
            MapModel { tiles: self.tiles, entities: self.entities.update(which, moved) }
        } else {
            self
        }
    }
}

/// One map: a tile grid and the entities on it.
pub struct GameMap {
    pub tiles: Vec<Vec<Tile>>,
    pub entities: Vec<Thing>,
}

impl View for GameMap {
    type V = MapModel;

    open spec fn view(&self) -> MapModel {
        MapModel {
            tiles: Seq::new(self.tiles@.len(), |y: int| self.tiles@[y]@),
            entities: self.entities@,
        }
    }
}

impl GameMap {
    /// Attempt to move entity `which` by `(dx, dy)`. Rejects (returning
    /// `false`, with no mutation) a candidate position outside the grid or on
    /// a wall tile; otherwise commits the new position and returns `true`.
    /// A committed move never leaves the grid and never lands on a wall.
    pub fn move_entity(&mut self, which: usize, dx: i8, dy: i8) -> (moved: bool)
        requires
            old(self)@.wf(),
            which < old(self)@.entities.len(),
        ensures
            moved == old(self)@.can_move(which as int, dx as int, dy as int),
            final(self)@ == old(self)@.move_result(which as int, dx as int, dy as int),
            final(self)@.tiles == old(self)@.tiles,
            final(self)@.entities.len() == old(self)@.entities.len(),
            final(self)@.wf(),
            moved ==> final(self)@.entity_ok(final(self)@.entities[which as int]),
    {
        let p = self.entities[which].position;
        let tx: i32 = p.0 as i32 + dx as i32;
        let ty: i32 = p.1 as i32 + dy as i32;
        let h: usize = self.tiles.len();
        let w: usize = self.tiles[0].len();
        if tx < 0 || ty < 0 || tx >= w as i32 || ty >= h as i32 {
            return false;
        }
        proof {
            assert(self@.tiles[ty as int].len() == self@.tiles[0].len());
            assert(self.tiles@[ty as int]@ == self@.tiles[ty as int]);
        }
        let t = self.tiles[ty as usize][tx as usize];
        if !t.is_passable() {
            return false;
        }
        let mut th = self.entities[which];
        th.position = (tx as u8, ty as u8);
        self.entities[which] = th;
        proof {
            assert(self@ =~= old(self)@.move_result(which as int, dx as int, dy as int));
        }
        true
    }

    /// The grid's width in tiles.
    pub fn width(&self) -> (r: usize)
        requires
            self@.wf(),
        ensures
            r == self@.width(),
    {
        self.tiles[0].len()
    }

    /// The grid's height in tiles.
    pub fn height(&self) -> (r: usize)
        ensures
            r == self@.height(),
    {
        self.tiles.len()
    }

    /// The tile at position `(x, y)`.
    pub fn tile(&self, x: usize, y: usize) -> (t: Tile)
        requires
            self@.wf(),
            self@.in_bounds(x as int, y as int),
        ensures
            t == self@.tile_at(x as int, y as int),
    {
        proof {
            assert(self@.tiles[y as int].len() == self@.tiles[0].len());
            assert(self@.tiles[y as int] == self.tiles@[y as int]@);
        }
        self.tiles[y][x]
    }

    /// Whether this map is well-formed: a non-empty rectangular grid with
    /// sides of at most 256, and every entity inside it on a passable tile.
    pub fn check_wf(&self) -> (r: bool)
        ensures
            r == self@.wf(),
    {
        let h = self.tiles.len();
        if h == 0 || h > 256 {
            return false;
        }
        let w = self.tiles[0].len();
        if w == 0 || w > 256 {
            return false;
        }
        let mut y: usize = 0;
        while y < h
            invariant
                0 <= y <= h,
                h == self@.height(),
                w == self@.width(),
                forall|y2: int|
                    0 <= y2 < y as int ==> #[trigger] self@.tiles[y2].len() == self@.tiles[0].len(),
            decreases h - y,
        {
            proof {
                assert(self@.tiles[y as int] == self.tiles@[y as int]@);
            }
            if self.tiles[y].len() != w {
                proof {
                    assert(self@.tiles[y as int].len() != self@.tiles[0].len());
                }
                return false;
            }
            y += 1;
        }
        let mut i: usize = 0;
        while i < self.entities.len()
            invariant
                0 <= i <= self@.entities.len(),
                h == self@.height(),
                w == self@.width(),
                0 < h <= 256,
                0 < w <= 256,
                forall|y2: int|
                    0 <= y2 < self@.height() ==> #[trigger] self@.tiles[y2].len()
                        == self@.tiles[0].len(),
                forall|j: int| 0 <= j < i as int ==> self@.entity_ok(#[trigger] self@.entities[j]),
            decreases self@.entities.len() - i,
        {
            let e = self.entities[i];
            let ex = e.position.0 as usize;
            let ey = e.position.1 as usize;
            if ex >= w || ey >= h {
                return false;
            }
            proof {
                assert(self@.tiles[ey as int].len() == self@.tiles[0].len());
                assert(self@.tiles[ey as int] == self.tiles@[ey as int]@);
            }
            if !self.tiles[ey][ex].is_passable() {
                return false;
            }
            i += 1;
        }
        true
    }
}

} // verus!
