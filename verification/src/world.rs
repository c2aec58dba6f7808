//! The world: every map plus the index of the active one. Owns the cross-map
//! transition that relocates the player and rebinds the active map.

use vstd::prelude::*;
use crate::map::{GameMap, MapModel, Thing};
use crate::tile::Tile;

verus! {

/// Mathematical model of the world: the maps in order and the active index.
#[verifier::ext_equal]
pub struct WorldModel {
    pub maps: Seq<MapModel>,
    pub current_map: int,
}

impl WorldModel {
    /// The active map.
    pub open spec fn cur(self) -> MapModel {
        self.maps[self.current_map]
    }

    /// Well-formedness: the active index is valid and every map is
    /// well-formed.
    pub open spec fn wf(self) -> bool {
        &&& 0 <= self.current_map < self.maps.len()
        &&& forall|m: int| 0 <= m < self.maps.len() ==> (#[trigger] self.maps[m]).wf()
    }

    /// The player sentinel: the active map's entity 0 is of a player kind,
    /// and no other entity of any map is. Hence the player is at index 0 of
    /// exactly one map: the active one.
    pub open spec fn player_ok(self) -> bool {
        &&& self.cur().entities.len() >= 1
        &&& self.cur().entities[0].thing_type.spec_is_player()
        &&& forall|m: int, i: int|
            0 <= m < self.maps.len() && 0 <= i < self.maps[m].entities.len() && !(m
                == self.current_map && i == 0) ==> !(#[trigger] self.maps[m].entities[i]).thing_type.spec_is_player()
    }

    /// The world after relocating the player to position `(tx, ty)` of map
    /// `target`: the player leaves the front of the active map's entity list,
    /// enters the front of the target map's list with the new position, and
    /// the target map becomes active.
    pub open spec fn transition_result(self, target: int, tx: u8, ty: u8) -> WorldModel {
        let cur = self.current_map;
        let player = self.maps[cur].entities[0];
        let moved = Thing { position: (tx, ty), thing_type: player.thing_type };
        let maps1 = self.maps.update(
            cur,
            MapModel { tiles: self.maps[cur].tiles, entities: self.maps[cur].entities.remove(0) },
        );
        let maps2 = maps1.update(
            target,
            MapModel { tiles: maps1[target].tiles, entities: maps1[target].entities.insert(0, moved) },
        );
        WorldModel { maps: maps2, current_map: target }
    }
}

/// The full game state: every map, and which one is active.
pub struct World {
    pub maps: Vec<GameMap>,
    pub current_map: usize,
}

impl View for World {
    type V = WorldModel;

    open spec fn view(&self) -> WorldModel {
        WorldModel {
            maps: Seq::new(self.maps@.len(), |m: int| self.maps@[m]@),
            current_map: self.current_map as int,
        }
    }
}

impl World {
    /// Relocate the player to position `(tx, ty)` of map `target_map`: remove
    /// it from the front of the active map's entity list, overwrite its
    /// position, insert it at the front of the target map's list, and make
    /// the target map active. Afterwards the player is at index 0 of exactly
    /// one map — the new active one — and is absent from the source map's
    /// list.
    pub fn transition(&mut self, target_map: usize, tx: u8, ty: u8)
        requires
            old(self)@.wf(),
            old(self)@.player_ok(),
            target_map < old(self)@.maps.len(),
            old(self)@.maps[target_map as int].in_bounds(tx as int, ty as int),
            old(self)@.maps[target_map as int].tile_at(tx as int, ty as int).spec_passable(),
        ensures
            final(self)@ == old(self)@.transition_result(target_map as int, tx, ty),
            final(self)@.wf(),
            final(self)@.player_ok(),
            final(self)@.current_map == target_map,
            final(self)@.cur().entities[0].thing_type == old(self)@.cur().entities[0].thing_type,
            final(self)@.cur().entities[0].position == (tx, ty),
            target_map != old(self)@.current_map ==> forall|i: int|
                0 <= i < final(self)@.maps[old(self)@.current_map].entities.len() ==> !(
                #[trigger] final(self)@.maps[old(self)@.current_map].entities[i]).thing_type.spec_is_player(),
    {
        let cur = self.current_map;
        proof {
            assert(self.maps@[cur as int]@ == self@.maps[cur as int]);
            assert(self@.cur().entities.len() >= 1);
        }
        let mut player = self.maps[cur].entities.remove(0);
        player.position = (tx, ty);
        self.maps[target_map].entities.insert(0, player);
        self.current_map = target_map;
        proof {
            let o = old(self)@;
            let r = o.transition_result(target_map as int, tx, ty);
            assert(self@ =~~= r);
            lemma_transition_wf(o, target_map as int, tx, ty);
        }
    }
}

impl World {
    /// The player's position: the active map's entity 0.
    pub fn player_pos(&self) -> (r: (u8, u8))
        requires
            self@.wf(),
            self@.cur().entities.len() >= 1,
        ensures
            r == self@.cur().entities[0].position,
    {
        proof {
            assert(self.maps@[self.current_map as int]@ == self@.cur());
        }
        self.maps[self.current_map].entities[0].position
    }

    /// How many entities the active map holds (the player included).
    pub fn cur_entity_count(&self) -> (r: usize)
        requires
            self@.wf(),
        ensures
            r == self@.cur().entities.len(),
    {
        proof {
            assert(self.maps@[self.current_map as int]@ == self@.cur());
        }
        self.maps[self.current_map].entities.len()
    }

    /// The tile at position `(x, y)` of the active map.
    pub fn cur_tile(&self, x: u8, y: u8) -> (t: Tile)
        requires
            self@.wf(),
            self@.cur().in_bounds(x as int, y as int),
        ensures
            t == self@.cur().tile_at(x as int, y as int),
    {
        proof {
            assert(self.maps@[self.current_map as int]@ == self@.cur());
            assert(self@.cur().tiles[y as int].len() == self@.cur().tiles[0].len());
            assert(self.maps@[self.current_map as int]@.tiles[y as int] == self.maps@[
                self.current_map as int].tiles@[y as int]@);
        }
        self.maps[self.current_map].tiles[y as usize][x as usize]
    }

    /// Attempt to move entity `which` of the active map by `(dx, dy)`; only
    /// the active map's entity list can change, and only at index `which`.
    pub fn move_in_cur(&mut self, which: usize, dx: i8, dy: i8) -> (moved: bool)
        requires
            old(self)@.wf(),
            which < old(self)@.cur().entities.len(),
        ensures
            moved == old(self)@.cur().can_move(which as int, dx as int, dy as int),
            final(self)@.current_map == old(self)@.current_map,
            final(self)@.maps.len() == old(self)@.maps.len(),
            final(self)@.cur() == old(self)@.cur().move_result(which as int, dx as int, dy as int),
            forall|m: int|
                0 <= m < old(self)@.maps.len() && m != old(self)@.current_map ==> final(self)@.maps[m] == old(self)@.maps[m],
            final(self)@.wf(),
    {
        let cur = self.current_map;
        proof {
            assert(self.maps@[cur as int]@ == self@.cur());
        }
        let moved = self.maps[cur].move_entity(which, dx, dy);
        proof {
            assert(self@.cur() == self.maps@[cur as int]@);
            assert forall|m: int|
                0 <= m < old(self)@.maps.len() && m != cur as int implies self@.maps[m] == old(self)@.maps[m] by {
                assert(self.maps@[m]@ == old(self).maps@[m]@);
            }
        }
        moved
    }

    /// Replace the tile at `(x, y)` of the active map by `Empty` (the key
    /// pickup's permanent removal). Entities and all other tiles stay.
    pub fn clear_cur_tile(&mut self, x: u8, y: u8)
        requires
            old(self)@.wf(),
            old(self)@.cur().in_bounds(x as int, y as int),
        ensures
            final(self)@.current_map == old(self)@.current_map,
            final(self)@.maps.len() == old(self)@.maps.len(),
            forall|m: int|
                0 <= m < old(self)@.maps.len() && m != old(self)@.current_map ==> final(self)@.maps[m] == old(self)@.maps[m],
            final(self)@.cur().entities == old(self)@.cur().entities,
            final(self)@.cur().tiles == old(self)@.cur().tiles.update(
                y as int,
                old(self)@.cur().tiles[y as int].update(x as int, Tile::Empty),
            ),
            final(self)@.wf(),
    {
        let cur = self.current_map;
        proof {
            assert(self.maps@[cur as int]@ == self@.cur());
            assert(self@.cur().tiles[y as int].len() == self@.cur().tiles[0].len());
            assert(self.maps@[cur as int]@.tiles[y as int] == self.maps@[cur as int].tiles@[
                y as int]@);
        }
        self.maps[cur].tiles[y as usize][x as usize] = Tile::Empty;
        proof {
            let o = old(self)@;
            let r = self@;
            assert(self.maps@[cur as int]@ == r.cur());
            assert forall|m: int|
                0 <= m < o.maps.len() && m != cur as int implies r.maps[m] == o.maps[m] by {
                assert(self.maps@[m]@ == old(self).maps@[m]@);
            }
            assert(r.cur().tiles =~~= o.cur().tiles.update(
                y as int,
                o.cur().tiles[y as int].update(x as int, Tile::Empty),
            ));
            assert forall|m: int| 0 <= m < r.maps.len() implies (#[trigger] r.maps[m]).wf() by {
                assert(o.maps[m].wf());
                if m == cur as int {
                    assert(r.cur().width() == o.cur().width());
                    assert forall|yy: int|
                        0 <= yy < r.cur().height() implies #[trigger] r.cur().tiles[yy].len()
                        == r.cur().tiles[0].len() by {
                        assert(o.cur().tiles[yy].len() == o.cur().tiles[0].len());
                    }
                    assert forall|i: int|
                        0 <= i < r.cur().entities.len() implies r.cur().entity_ok(
                        #[trigger] r.cur().entities[i],
                    ) by {
                        let e = o.cur().entities[i];
                        assert(o.cur().entity_ok(e));
                        assert(r.cur().tile_at(e.position.0 as int, e.position.1 as int)
                            == if e.position.0 == x && e.position.1 == y {
                            Tile::Empty
                        } else {
                            o.cur().tile_at(e.position.0 as int, e.position.1 as int)
                        });
                    }
                }
            }
        }
    }
}

impl World {
    /// Whether the world is well-formed: the active index is valid and every
    /// map is well-formed.
    pub fn check_wf(&self) -> (r: bool)
        ensures
            r == self@.wf(),
    {
        if self.current_map >= self.maps.len() {
            return false;
        }
        let total = self.maps.len();
        let mut m: usize = 0;
        while m < total
            invariant
                0 <= m <= total,
                total == self@.maps.len(),
                (self@.current_map) < self@.maps.len(),
                forall|m2: int| 0 <= m2 < m as int ==> (#[trigger] self@.maps[m2]).wf(),
            decreases total - m,
        {
            proof {
                assert(self.maps@[m as int]@ == self@.maps[m as int]);
            }
            if !self.maps[m].check_wf() {
                return false;
            }
            m += 1;
        }
        true
    }

    /// Whether the player sentinel holds: the active map's entity 0 is a
    /// player kind and no other entity of any map is.
    pub fn check_player_ok(&self) -> (r: bool)
        requires
            self@.wf(),
        ensures
            r == self@.player_ok(),
    {
        let cur = self.current_map;
        proof {
            assert(self.maps@[cur as int]@ == self@.cur());
        }
        if self.maps[cur].entities.len() == 0 {
            return false;
        }
        let head = self.maps[cur].entities[0];
        if !head.thing_type.is_player() {
            return false;
        }
        let total = self.maps.len();
        let mut m: usize = 0;
        while m < total
            invariant
                0 <= m <= total,
                total == self@.maps.len(),
                self@.wf(),
                cur as int == self@.current_map,
                self@.cur().entities.len() >= 1,
                self@.cur().entities[0].thing_type.spec_is_player(),
                forall|m2: int, i: int|
                    0 <= m2 < m as int && 0 <= i < self@.maps[m2].entities.len() && !(m2
                        == self@.current_map && i == 0) ==> !(#[trigger] self@.maps[m2].entities[i]).thing_type.spec_is_player(),
            decreases total - m,
        {
            proof {
                assert(self.maps@[m as int]@ == self@.maps[m as int]);
            }
            let n = self.maps[m].entities.len();
            let mut i: usize = 0;
            while i < n
                invariant
                    0 <= i <= n,
                    0 <= (m as int) < self@.maps.len(),
                    n as int == self@.maps[m as int].entities.len(),
                    cur as int == self@.current_map,
                    forall|i2: int|
                        0 <= i2 < i as int && !(m as int == self@.current_map && i2 == 0) ==> !(
                        #[trigger] self@.maps[m as int].entities[i2]).thing_type.spec_is_player(),
                decreases n - i,
            {
                if !(m == cur && i == 0) {
                    proof {
                        assert(self.maps@[m as int]@ == self@.maps[m as int]);
                    }
                    let e = self.maps[m].entities[i];
                    if e.thing_type.is_player() {
                        proof {
                            assert(self@.maps[m as int].entities[
                                i as int].thing_type.spec_is_player());
                        }
                        return false;
                    }
                }
                i += 1;
            }
            m += 1;
        }
        true
    }
}

/// The transition preserves well-formedness and the player sentinel: the
/// relocated player heads the new active map's entity list, every entity is
/// still on a passable in-bounds tile, and no map other than the new active
/// one holds a player-kind entity.
pub proof fn lemma_transition_wf(w: WorldModel, target: int, tx: u8, ty: u8)
    requires
        w.wf(),
        w.player_ok(),
        0 <= target < w.maps.len(),
        w.maps[target].in_bounds(tx as int, ty as int),
        w.maps[target].tile_at(tx as int, ty as int).spec_passable(),
    ensures
        w.transition_result(target, tx, ty).wf(),
        w.transition_result(target, tx, ty).player_ok(),
{
    let r = w.transition_result(target, tx, ty);
    let cur = w.current_map;
    assert forall|m: int| 0 <= m < r.maps.len() implies (#[trigger] r.maps[m]).wf() by {
        assert(w.maps[m].wf());
        if m == target {
            assert forall|i: int| 0 <= i < r.maps[m].entities.len() implies r.maps[m].entity_ok(
                #[trigger] r.maps[m].entities[i],
            ) by {
                if i > 0 {
                    if m == cur {
                        assert(r.maps[m].entities[i] == w.maps[m].entities[i]);
                    } else {
                        assert(r.maps[m].entities[i] == w.maps[m].entities[i - 1]);
                    }
                }
            }
        } else if m == cur {
            assert forall|i: int| 0 <= i < r.maps[m].entities.len() implies r.maps[m].entity_ok(
                #[trigger] r.maps[m].entities[i],
            ) by {
                assert(r.maps[m].entities[i] == w.maps[m].entities[i + 1]);
            }
        }
    }
    assert forall|m: int, i: int|
        0 <= m < r.maps.len() && 0 <= i < r.maps[m].entities.len() && !(m == r.current_map && i
            == 0) implies !(#[trigger] r.maps[m].entities[i]).thing_type.spec_is_player() by {
        if m == target {
            if m == cur {
                assert(r.maps[m].entities[i] == w.maps[m].entities[i]);
            } else {
                assert(r.maps[m].entities[i] == w.maps[m].entities[i - 1]);
            }
        } else if m == cur {
            assert(r.maps[m].entities[i] == w.maps[m].entities[i + 1]);
        } else {
            assert(r.maps[m].entities[i] == w.maps[m].entities[i]);
        }
    }
}

} // verus!
