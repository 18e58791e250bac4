//! The world the renderer reads: the tile grid, the sprites standing on
//! it, and the entities that move them.
//!
//! The tile-level sprite index (`Tile::sprites_inside`) is maintained
//! incrementally as sprites are inserted and moved; the renderer only
//! reads it. `World::wf` is the invariant the renderer relies on: every id
//! registered on a tile resolves to a well-formed sprite.

pub mod entity;
pub mod generate;
pub mod tiles;

use crate::fx::{iabs, Fx};
use crate::id::{Id, IdMap};
use crate::mat2::Vec2x;
use crate::random::Random;
use crate::texture::Texture;
use crate::world::entity::Entities;
use crate::world::tiles::TileMap;
use vstd::prelude::*;

verus! {

/// Largest admissible magnitude for a sprite coordinate (raw units).
pub const SPRITE_POS_LIMIT: i64 = 0x20_0000_0000;

/// Largest admissible sprite size (raw units).
pub const SPRITE_SIZE_LIMIT: i64 = 0x400_0000;

/// Identifies a sprite in the world's sprite map.
#[derive(Clone, Copy, PartialEq, Eq, Structural, Debug, Hash)]
pub struct SpriteId {
    pub value: u32,
}

impl SpriteId {
    /// The id with index `num`.
    pub fn create_raw(num: u32) -> (r: SpriteId)
        ensures
            r.value == num,
    {
        SpriteId { value: num }
    }

    /// The index this id stands for.
    pub fn into_index(self) -> (r: usize)
        ensures
            r == self.value,
    {
        self.value as usize
    }
}

impl Id for SpriteId {
    open spec fn index_spec(self) -> int {
        self.value as int
    }

    fn new() -> (r: Self) {
        SpriteId { value: 0 }
    }

    fn create(value: u32) -> (r: Self) {
        SpriteId { value }
    }

    fn get(&self) -> (r: u32) {
        self.value
    }

    fn count_next(&mut self) -> (r: Self) {
        let v: SpriteId = *self;
        self.value = self.value + 1;
        v
    }
}

/// A flat object standing in the world: position, texture, footprint size
/// (world units) and vertical anchor (0 floor-aligned, 1 ceiling-aligned).
#[derive(Clone, Copy, PartialEq, Eq, Structural, Debug)]
pub struct Sprite {
    pub pos: Vec2x,
    pub y_pos: Fx,
    pub texture: Texture,
    pub size: Fx,
}

impl Sprite {
    /// Bounded position, positive bounded size, anchor within `[0, 1]`.
    pub open spec fn wf(self) -> bool {
        &&& iabs(self.pos.x.raw as int) <= SPRITE_POS_LIMIT
        &&& iabs(self.pos.y.raw as int) <= SPRITE_POS_LIMIT
        &&& 1 <= self.size.raw <= SPRITE_SIZE_LIMIT
        &&& 0 <= self.y_pos.raw <= 65536
    }

    #[inline]
    pub fn pos(&self) -> (r: Vec2x)
        ensures
            r == self.pos,
    {
        self.pos
    }

    #[inline]
    pub fn size(&self) -> (r: Fx)
        ensures
            r == self.size,
    {
        self.size
    }
}

/// The world: tile grid, entities, sprites and the world's own randomness.
pub struct World {
    pub tiles: TileMap,
    pub entities: Entities,
    pub sprites: IdMap<SpriteId, Sprite>,
    pub random: Random,
}

impl World {
    /// What the renderer relies on: a well-formed grid whose sprite index
    /// only holds ids that resolve to well-formed sprites.
    pub open spec fn wf(self) -> bool {
        &&& self.tiles.wf()
        &&& self.sprites.wf()
        &&& forall|x: int, y: int, k: int|
            self.tiles.spec_in_bounds(x, y) && 0 <= k < self.tiles.spec_tile(
                x,
                y,
            ).sprites_inside@.len() ==> {
                let id = #[trigger] self.tiles.spec_tile(x, y).sprites_inside@[k];
                &&& self.sprites.spec_get(id.index_spec()) is Some
                &&& self.sprites.spec_get(id.index_spec())->Some_0.wf()
            }
    }

    /// A world over a freshly built grid: no sprites registered anywhere
    /// yet.
    pub fn new(tiles: TileMap, entities: Entities, random: Random) -> (r: World)
        requires
            tiles.wf(),
            forall|x: int, y: int|
                tiles.spec_in_bounds(x, y) ==> (#[trigger] tiles.spec_tile(
                    x,
                    y,
                )).sprites_inside@.len() == 0,
        ensures
            r.wf(),
            r.tiles == tiles,
            r.entities == entities,
            r.random == random,
            r.sprites.wf(),
            r.sprites.id_counter == 0,
    {
        World { tiles, entities, sprites: IdMap::new(), random }
    }

    /// Registers a new sprite and stamps its id onto every cell its
    /// footprint overlaps, so the renderer finds it from any of them.
    pub fn insert_sprite(&mut self, texture: Texture, pos: Vec2x, size: Fx, y_pos: Fx) -> (r:
        SpriteId)
        requires
            old(self).wf(),
            iabs(pos.x.raw as int) <= SPRITE_POS_LIMIT,
            iabs(pos.y.raw as int) <= SPRITE_POS_LIMIT,
            1 <= size.raw <= SPRITE_SIZE_LIMIT,
            0 <= y_pos.raw <= 65536,
            old(self).sprites.id_counter < u32::MAX,
        ensures
            final(self).wf(),
            r.value == old(self).sprites.id_counter,
            final(self).sprites.spec_get(r.value as int) == Some(
                Sprite { pos, y_pos, texture, size },
            ),
            forall|i: int|
                0 <= i < old(self).sprites.slots@.len() ==> final(self).sprites.spec_get(i) == old(
                    self,
                ).sprites.spec_get(i),
            final(self).tiles.spec_width() == old(self).tiles.spec_width(),
            final(self).tiles.spec_height() == old(self).tiles.spec_height(),
            forall|i: int, j: int|
                old(self).tiles.spec_in_bounds(i, j) ==> crate::world::tiles::Tile::same_but_sprites(
                    #[trigger] final(self).tiles.spec_tile(i, j),
                    old(self).tiles.spec_tile(i, j),
                ),
            forall|i: int, j: int|
                old(self).tiles.spec_in_bounds(i, j) ==> (#[trigger] final(self).tiles.spec_tile(
                    i,
                    j,
                )).sprites_inside@ == {
                    let (l, rt, t, b) = crate::world::tiles::spec_footprint(pos, size);
                    if l <= i <= rt && t <= j <= b {
                        old(self).tiles.spec_tile(i, j).sprites_inside@.push(r)
                    } else {
                        old(self).tiles.spec_tile(i, j).sprites_inside@
                    }
                },
            final(self).entities == old(self).entities,
    {
        let sprite: Sprite = Sprite { pos, y_pos, texture, size };
        let id: SpriteId = self.sprites.insert(sprite);
        proof {
            assert(sprite.wf());
            assert(self.wf()) by {
                assert forall|xx: int, yy: int, k: int|
                    self.tiles.spec_in_bounds(xx, yy) && 0 <= k < self.tiles.spec_tile(
                        xx,
                        yy,
                    ).sprites_inside@.len() implies {
                    let idk = #[trigger] self.tiles.spec_tile(xx, yy).sprites_inside@[k];
                    &&& self.sprites.spec_get(idk.index_spec()) is Some
                    &&& self.sprites.spec_get(idk.index_spec())->Some_0.wf()
                } by {
                    let idk = self.tiles.spec_tile(xx, yy).sprites_inside@[k];
                    assert(old(self).sprites.spec_get(idk.index_spec()) is Some);
                }
            }
        }
        let ghost smap = self.sprites;
        let half: i64 = ((size.raw as u64) / 2) as i64;
        let left: i64 = pos.x.sub(Fx { raw: half }).floor_int();
        let right: i64 = pos.x.add(Fx { raw: half }).floor_int();
        let top: i64 = pos.y.sub(Fx { raw: half }).floor_int();
        let bottom: i64 = pos.y.add(Fx { raw: half }).floor_int();
        proof {
            crate::fx::lemma_div_abs_shrink(pos.x.raw - half, 0x40_0000_0000, 65536int);
            crate::fx::lemma_div_abs_shrink(pos.x.raw + half, 0x40_0000_0000, 65536int);
            crate::fx::lemma_div_abs_shrink(pos.y.raw - half, 0x40_0000_0000, 65536int);
            crate::fx::lemma_div_abs_shrink(pos.y.raw + half, 0x40_0000_0000, 65536int);
            vstd::arithmetic::div_mod::lemma_div_is_ordered(
                pos.x.raw - half,
                pos.x.raw + half,
                65536,
            );
            vstd::arithmetic::div_mod::lemma_div_is_ordered(
                pos.y.raw - half,
                pos.y.raw + half,
                65536,
            );
            assert(crate::world::tiles::spec_footprint(pos, size) == (
                left as int,
                right as int,
                top as int,
                bottom as int,
            ));
        }
        let mut y: i64 = top;
        while y <= bottom
            invariant
                self.sprites == smap,
                smap.spec_get(id.index_spec()) is Some,
                smap.spec_get(id.index_spec())->Some_0.wf(),
                self.entities == old(self).entities,
                self.wf(),
                top <= y <= bottom + 1,
                left <= right,
                iabs(top as int) <= 0x80_0000,
                iabs(bottom as int) <= 0x80_0000,
                iabs(left as int) <= 0x80_0000,
                iabs(right as int) <= 0x80_0000,
                self.tiles.spec_width() == old(self).tiles.spec_width(),
                self.tiles.spec_height() == old(self).tiles.spec_height(),
                forall|i: int, j: int|
                    old(self).tiles.spec_in_bounds(i, j)
                        ==> crate::world::tiles::Tile::same_but_sprites(
                        #[trigger] self.tiles.spec_tile(i, j),
                        old(self).tiles.spec_tile(i, j),
                    ),
                forall|i: int, j: int|
                    old(self).tiles.spec_in_bounds(i, j) && !(left <= i <= right && top <= j < y)
                        ==> #[trigger] self.tiles.spec_tile(i, j) == old(self).tiles.spec_tile(
                        i,
                        j,
                    ),
                forall|i: int, j: int|
                    old(self).tiles.spec_in_bounds(i, j) && left <= i <= right && top <= j < y
                        ==> (#[trigger] self.tiles.spec_tile(i, j)).sprites_inside@ == old(
                        self,
                    ).tiles.spec_tile(i, j).sprites_inside@.push(id),
            decreases bottom - y + 1,
        {
            let mut x: i64 = left;
            while x <= right
                invariant
                    self.sprites == smap,
                    smap.spec_get(id.index_spec()) is Some,
                    smap.spec_get(id.index_spec())->Some_0.wf(),
                    self.entities == old(self).entities,
                    self.wf(),
                    left <= x <= right + 1,
                    top <= y <= bottom,
                    iabs(top as int) <= 0x80_0000,
                    iabs(bottom as int) <= 0x80_0000,
                    iabs(left as int) <= 0x80_0000,
                    iabs(right as int) <= 0x80_0000,
                    self.tiles.spec_width() == old(self).tiles.spec_width(),
                    self.tiles.spec_height() == old(self).tiles.spec_height(),
                    forall|i: int, j: int|
                        old(self).tiles.spec_in_bounds(i, j)
                            ==> crate::world::tiles::Tile::same_but_sprites(
                            #[trigger] self.tiles.spec_tile(i, j),
                            old(self).tiles.spec_tile(i, j),
                        ),
                    forall|i: int, j: int|
                        old(self).tiles.spec_in_bounds(i, j) && !(left <= i <= right && (top <= j
                            < y || (j == y && i < x))) ==> #[trigger] self.tiles.spec_tile(i, j)
                            == old(self).tiles.spec_tile(i, j),
                    forall|i: int, j: int|
                        old(self).tiles.spec_in_bounds(i, j) && left <= i <= right && (top <= j
                            < y || (j == y && i < x)) ==> (#[trigger] self.tiles.spec_tile(
                            i,
                            j,
                        )).sprites_inside@ == old(self).tiles.spec_tile(
                            i,
                            j,
                        ).sprites_inside@.push(id),
                decreases right - x + 1,
            {
                let ghost pre: World = *self;
                self.tiles.push_sprite_at(x, y, id);
                proof {
                    assert(self.wf()) by {
                        assert forall|xx: int, yy: int, k: int|
                            self.tiles.spec_in_bounds(xx, yy) && 0 <= k < self.tiles.spec_tile(
                                xx,
                                yy,
                            ).sprites_inside@.len() implies {
                            let idk = #[trigger] self.tiles.spec_tile(xx, yy).sprites_inside@[k];
                            &&& self.sprites.spec_get(idk.index_spec()) is Some
                            &&& self.sprites.spec_get(idk.index_spec())->Some_0.wf()
                        } by {
                            let idk = self.tiles.spec_tile(xx, yy).sprites_inside@[k];
                            if pre.tiles.spec_in_bounds(x as int, y as int) && xx == x as int && yy
                                == y as int {
                                if k < pre.tiles.spec_tile(xx, yy).sprites_inside@.len() {
                                    assert(idk == pre.tiles.spec_tile(xx, yy).sprites_inside@[k]);
                                } else {
                                    assert(idk == id);
                                }
                            } else {
                                assert(self.tiles.spec_tile(xx, yy) == pre.tiles.spec_tile(xx, yy));
                            }
                        }
                    }
                }
                x = x + 1;
            }
            y = y + 1;
        }
        id
    }

    /// The sprite registered under `id`, if any.
    pub fn get_sprite(&self, id: SpriteId) -> (r: Option<&Sprite>)
        requires
            self.sprites.wf(),
        ensures
            match r {
                Some(v) => self.sprites.spec_get(id.index_spec()) == Some(*v),
                None => self.sprites.spec_get(id.index_spec()) is None,
            },
    {
        self.sprites.get(id)
    }
}

} // verus!
