//! The tile grid: a fixed width-by-height, row-major grid of tiles, with
//! bounds-checked lookups, collision queries, and the per-tile sprite
//! index the renderer reads.

use crate::fx::{iabs, Fx};
use crate::mat2::Vec2x;
use crate::texture::{Animation, AnimationKind, Texture, TIME_LIMIT};
use crate::world::{Sprite, SpriteId};
use vstd::prelude::*;

verus! {

/// Largest admissible map width or height, in tiles.
pub const MAP_DIM_LIMIT: usize = 0x8000;

/// What a tile is.
#[derive(Clone, Copy, PartialEq, Eq, Structural, Debug)]
pub enum TileKind {
    Floor,
    Wall,
    Window,
    Door(bool),
}

/// Whether a tile kind blocks movement.
pub open spec fn spec_solid(kind: TileKind) -> bool {
    match kind {
        TileKind::Floor => false,
        TileKind::Wall => true,
        TileKind::Window => true,
        TileKind::Door(_) => false,
    }
}

/// The out-of-floor-plane graphics of a tile: what to draw for it, and
/// whether rays continue behind it.
#[derive(Clone, Copy, PartialEq, Eq, Structural, Debug)]
pub struct TileGraphics {
    pub texture: Animation,
    pub is_transparent: bool,
}

/// The graphics each tile kind carries, stamped at `time`: walls and
/// windows loop their animation, doors clamp on their final frame, and
/// floors draw nothing out of plane.
pub open spec fn spec_graphics_for(kind: TileKind, time: Fx) -> Option<TileGraphics> {
    match kind {
        TileKind::Floor => None,
        TileKind::Wall => Some(
            TileGraphics {
                texture: Animation {
                    texture: Texture::Wall,
                    start_time: time,
                    speed: Fx { raw: 65536 },
                    kind: AnimationKind::Looping,
                },
                is_transparent: false,
            },
        ),
        TileKind::Window => Some(
            TileGraphics {
                texture: Animation {
                    texture: Texture::Window,
                    start_time: time,
                    speed: Fx { raw: 65536 },
                    kind: AnimationKind::Looping,
                },
                is_transparent: true,
            },
        ),
        TileKind::Door(true) => Some(
            TileGraphics {
                texture: Animation {
                    texture: Texture::Door,
                    start_time: time,
                    speed: Fx { raw: 65536 },
                    kind: AnimationKind::Clamped,
                },
                is_transparent: true,
            },
        ),
        TileKind::Door(false) => Some(
            TileGraphics {
                texture: Animation {
                    texture: Texture::DoorClose,
                    start_time: time,
                    speed: Fx { raw: 65536 },
                    kind: AnimationKind::Clamped,
                },
                is_transparent: true,
            },
        ),
    }
}

/// One grid cell: its kind, the graphics derived from that kind, the ids
/// of the sprites whose footprint overlaps the cell, and its floor
/// texture.
#[derive(Clone, Debug)]
pub struct Tile {
    pub graphics: Option<TileGraphics>,
    pub kind: TileKind,
    pub sprites_inside: Vec<SpriteId>,
    pub floor_gfx: Texture,
}

impl Tile {
    /// What a tile is.
    pub open spec fn spec_kind(self) -> TileKind {
        self.kind
    }

    /// The graphics derived from the tile's kind.
    pub open spec fn spec_graphics(self) -> Option<TileGraphics> {
        self.graphics
    }

    /// Graphics agree with the kind, and any animation is time-bounded.
    pub open spec fn wf(self) -> bool {
        &&& (self.spec_kind() == TileKind::Floor <==> self.spec_graphics() is None)
        &&& match self.spec_graphics() {
            Some(g) => g.texture.wf(),
            None => true,
        }
    }

    /// Only the sprite index differs between the two tiles.
    pub open spec fn same_but_sprites(a: Tile, b: Tile) -> bool {
        &&& a.spec_kind() == b.spec_kind()
        &&& a.spec_graphics() == b.spec_graphics()
        &&& a.floor_gfx == b.floor_gfx
    }

    /// The graphics a kind carries, stamped at `time`.
    fn graphics_for(kind: TileKind, time: Fx) -> (r: Option<TileGraphics>)
        ensures
            r == spec_graphics_for(kind, time),
    {
        match kind {
            TileKind::Floor => None,
            TileKind::Wall => Some(
                TileGraphics {
                    texture: Animation::new_loop_with_time(Texture::Wall, time),
                    is_transparent: false,
                },
            ),
            TileKind::Window => Some(
                TileGraphics {
                    texture: Animation::new_loop_with_time(Texture::Window, time),
                    is_transparent: true,
                },
            ),
            TileKind::Door(true) => Some(
                TileGraphics {
                    texture: Animation::new_clamp_with_time(Texture::Door, time),
                    is_transparent: true,
                },
            ),
            TileKind::Door(false) => Some(
                TileGraphics {
                    texture: Animation::new_clamp_with_time(Texture::DoorClose, time),
                    is_transparent: true,
                },
            ),
        }
    }

    /// A fresh tile of the given kind, stamped at time zero.
    pub fn new(kind: TileKind) -> (r: Self)
        ensures
            r.spec_kind() == kind,
            r.spec_graphics() == spec_graphics_for(kind, Fx { raw: 0 }),
            r.sprites_inside@.len() == 0,
            r.floor_gfx == Texture::Floor,
            r.wf(),
    {
        Self::new_with_time(kind, Fx { raw: 0 })
    }

    /// A fresh tile of the given kind, stamped at `time`.
    pub fn new_with_time(kind: TileKind, time: Fx) -> (r: Self)
        requires
            iabs(time.raw as int) <= TIME_LIMIT,
        ensures
            r.spec_kind() == kind,
            r.spec_graphics() == spec_graphics_for(kind, time),
            r.sprites_inside@.len() == 0,
            r.floor_gfx == Texture::Floor,
            r.wf(),
    {
        Tile {
            graphics: Self::graphics_for(kind, time),
            kind,
            sprites_inside: Vec::new(),
            floor_gfx: Texture::Floor,
        }
    }

    /// What this tile is.
    pub fn kind(&self) -> (r: TileKind)
        ensures
            r == self.spec_kind(),
    {
        self.kind
    }

    /// Changes the tile's kind, stamping its graphics at time zero.
    pub fn set_kind(&mut self, kind: TileKind)
        ensures
            final(self).spec_kind() == kind,
            final(self).spec_graphics() == spec_graphics_for(kind, Fx { raw: 0 }),
            final(self).sprites_inside == old(self).sprites_inside,
            final(self).floor_gfx == old(self).floor_gfx,
            final(self).wf(),
    {
        self.set_kind_with_time(kind, Fx { raw: 0 })
    }

    /// Changes the tile's kind, stamping its graphics at `time`.
    pub fn set_kind_with_time(&mut self, kind: TileKind, time: Fx)
        requires
            iabs(time.raw as int) <= TIME_LIMIT,
        ensures
            final(self).spec_kind() == kind,
            final(self).spec_graphics() == spec_graphics_for(kind, time),
            final(self).sprites_inside == old(self).sprites_inside,
            final(self).floor_gfx == old(self).floor_gfx,
            final(self).wf(),
    {
        self.graphics = Self::graphics_for(kind, time);
        self.kind = kind;
    }

    /// The tile's out-of-floor-plane graphics, if any.
    pub fn get_graphics(&self) -> (r: &Option<TileGraphics>)
        ensures
            *r == self.spec_graphics(),
    {
        &self.graphics
    }

    /// Whether the tile blocks movement.
    pub fn is_solid(&self) -> (r: bool)
        ensures
            r == spec_solid(self.spec_kind()),
    {
        match self.kind {
            TileKind::Floor => false,
            TileKind::Wall => true,
            TileKind::Window => true,
            TileKind::Door(_) => false,
        }
    }
}

/// The tile grid, row-major: the tile at `(x, y)` sits at `y * width + x`.
pub struct TileMap {
    tiles: Vec<Tile>,
    width: usize,
    height: usize,
}

impl TileMap {
    /// The tiles, row-major.
    pub closed spec fn spec_tiles(self) -> Seq<Tile> {
        self.tiles@
    }

    /// The grid width, in tiles.
    pub closed spec fn spec_width(self) -> int {
        self.width as int
    }

    /// The grid height, in tiles.
    pub closed spec fn spec_height(self) -> int {
        self.height as int
    }

    /// Bounded dimensions matching the tile count, every tile well formed.
    pub open spec fn wf(self) -> bool {
        &&& self.spec_width() <= MAP_DIM_LIMIT
        &&& self.spec_height() <= MAP_DIM_LIMIT
        &&& self.spec_tiles().len() == self.spec_width() * self.spec_height()
        &&& forall|i: int|
            0 <= i < self.spec_tiles().len() ==> (#[trigger] self.spec_tiles()[i]).wf()
    }

    /// Whether `(x, y)` lies on the grid.
    pub open spec fn spec_in_bounds(self, x: int, y: int) -> bool {
        0 <= x < self.spec_width() && 0 <= y < self.spec_height()
    }

    /// The tile at `(x, y)`.
    pub open spec fn spec_tile(self, x: int, y: int) -> Tile {
        self.spec_tiles()[y * self.spec_width() + x]
    }

    /// An in-bounds coordinate's flat index is in range.
    proof fn lemma_index(self, x: int, y: int)
        requires
            self.wf(),
            self.spec_in_bounds(x, y),
        ensures
            0 <= y * self.spec_width() + x < self.spec_tiles().len(),
    {
        assert(0 <= y * self.spec_width() + x < self.spec_width() * self.spec_height())
            by (nonlinear_arith)
            requires
                0 <= x < self.spec_width(),
                0 <= y < self.spec_height(),
        ;
    }

    /// Distinct in-bounds coordinates have distinct flat indices.
    proof fn lemma_index_injective(self, x1: int, y1: int, x2: int, y2: int)
        requires
            self.wf(),
            self.spec_in_bounds(x1, y1),
            self.spec_in_bounds(x2, y2),
            y1 * self.spec_width() + x1 == y2 * self.spec_width() + x2,
        ensures
            x1 == x2 && y1 == y2,
    {
        assert(x1 == x2 && y1 == y2) by (nonlinear_arith)
            requires
                0 <= x1 < self.spec_width(),
                0 <= x2 < self.spec_width(),
                0 <= y1 < self.spec_height(),
                0 <= y2 < self.spec_height(),
                y1 * self.spec_width() + x1 == y2 * self.spec_width() + x2,
        ;
    }

    /// Every in-bounds tile of a well-formed map is well formed.
    pub proof fn lemma_tile_wf(self, x: int, y: int)
        requires
            self.wf(),
            self.spec_in_bounds(x, y),
        ensures
            self.spec_tile(x, y).wf(),
    {
        self.lemma_index(x, y);
    }

    /// Wraps a row-major tile list of the stated dimensions.
    pub fn new(tiles: Vec<Tile>, width: usize, height: usize) -> (r: TileMap)
        requires
            tiles@.len() == width * height,
            width <= MAP_DIM_LIMIT,
            height <= MAP_DIM_LIMIT,
            forall|i: int| 0 <= i < tiles@.len() ==> (#[trigger] tiles@[i]).wf(),
        ensures
            r.wf(),
            r.spec_tiles() == tiles@,
            r.spec_width() == width,
            r.spec_height() == height,
    {
        TileMap { tiles, width, height }
    }

    /// The grid width, in tiles.
    pub fn width(&self) -> (r: usize)
        ensures
            r == self.spec_width(),
    {
        self.width
    }

    /// The grid height, in tiles.
    pub fn height(&self) -> (r: usize)
        ensures
            r == self.spec_height(),
    {
        self.height
    }

    /// The tile at `(x, y)`; out-of-bounds coordinates yield no tile.
    pub fn get(&self, x: i64, y: i64) -> (r: Option<&Tile>)
        requires
            self.wf(),
        ensures
            self.spec_in_bounds(x as int, y as int) ==> r == Some(
                &self.spec_tile(x as int, y as int),
            ),
            !self.spec_in_bounds(x as int, y as int) ==> r is None,
    {
        if x >= 0 && y >= 0 && x < (self.width as i64) && y < (self.height as i64) {
            let xi: usize = x as usize;
            let yi: usize = y as usize;
            proof {
                assert(yi * self.width + xi < self.tiles@.len() && yi * self.width + xi
                    < 0x4000_0000) by (nonlinear_arith)
                    requires
                        yi < self.height,
                        xi < self.width,
                        self.width <= 0x8000,
                        self.height <= 0x8000,
                        self.tiles@.len() == (self.width as int) * (self.height as int),
                ;
            }
            Some(&self.tiles[yi * self.width + xi])
        } else {
            None
        }
    }

    /// Whether the tile at `(x, y)` blocks movement; out-of-bounds
    /// coordinates do not.
    pub fn tile_is_colliding(&self, x: i64, y: i64) -> (r: bool)
        requires
            self.wf(),
        ensures
            r == (self.spec_in_bounds(x as int, y as int) && spec_solid(
                self.spec_tile(x as int, y as int).spec_kind(),
            )),
    {
        if x >= 0 && y >= 0 && x < (self.width as i64) && y < (self.height as i64) {
            let xi: usize = x as usize;
            let yi: usize = y as usize;
            proof {
                assert(yi * self.width + xi < self.tiles@.len() && yi * self.width + xi
                    < 0x4000_0000) by (nonlinear_arith)
                    requires
                        yi < self.height,
                        xi < self.width,
                        self.width <= 0x8000,
                        self.height <= 0x8000,
                        self.tiles@.len() == (self.width as int) * (self.height as int),
                ;
            }
            self.tiles[yi * self.width + xi].is_solid()
        } else {
            false
        }
    }
}

/// Removes the first occurrence of `id`, swapping the last entry into
/// its place; leaves the list alone when `id` is absent.
fn remove_first_sprite(v: &mut Vec<SpriteId>, id: SpriteId)
    ensures
        old(v)@.contains(id) ==> final(v)@.to_multiset() == old(v)@.to_multiset().remove(id),
        !old(v)@.contains(id) ==> final(v)@ == old(v)@,
{
    let mut i: usize = 0;
    while i < v.len()
        invariant
            i <= v@.len(),
            v@ == old(v)@,
            forall|k: int| 0 <= k < i ==> v@[k] != id,
        decreases v@.len() - i,
    {
        if v[i] == id {
            let ghost s: Seq<SpriteId> = v@;
            v.swap_remove(i);
            proof {
                broadcast use vstd::seq_lib::group_to_multiset_ensures;
                broadcast use vstd::multiset::group_multiset_axioms;

                let t = s.update(i as int, s.last());
                assert(v@ == t.drop_last());
                assert(t.drop_last() =~= t.remove(t.len() - 1));
                assert(t[t.len() - 1] == s.last());
                assert(v@.to_multiset() =~= s.to_multiset().remove(id));
            }
            return ;
        }
        i = i + 1;
    }
    proof {
        broadcast use vstd::seq_lib::group_to_multiset_ensures;

        assert(!v@.contains(id));
    }
}

impl TileMap {
    /// Registers `id` on the tile at `(x, y)`; out of bounds, does
    /// nothing.
    pub fn push_sprite_at(&mut self, x: i64, y: i64, id: SpriteId)
        requires
            old(self).wf(),
        ensures
            final(self).wf(),
            final(self).spec_width() == old(self).spec_width(),
            final(self).spec_height() == old(self).spec_height(),
            !old(self).spec_in_bounds(x as int, y as int) ==> *final(self) == *old(self),
            old(self).spec_in_bounds(x as int, y as int) ==> {
                &&& forall|i: int, j: int|
                    old(self).spec_in_bounds(i, j) && !(i == x as int && j == y as int)
                        ==> #[trigger] final(self).spec_tile(i, j) == old(self).spec_tile(i, j)
                &&& Tile::same_but_sprites(
                    final(self).spec_tile(x as int, y as int),
                    old(self).spec_tile(x as int, y as int),
                )
                &&& final(self).spec_tile(x as int, y as int).sprites_inside@ == old(
                    self,
                ).spec_tile(x as int, y as int).sprites_inside@.push(id)
            },
    {
        if x >= 0 && y >= 0 && x < (self.width as i64) && y < (self.height as i64) {
            let xi: usize = x as usize;
            let yi: usize = y as usize;
            proof {
                assert(yi * self.width + xi < self.tiles@.len() && yi * self.width + xi
                    < 0x4000_0000) by (nonlinear_arith)
                    requires
                        yi < self.height,
                        xi < self.width,
                        self.width <= 0x8000,
                        self.height <= 0x8000,
                        self.tiles@.len() == (self.width as int) * (self.height as int),
                ;
            }
            let idx: usize = yi * self.width + xi;
            self.tiles[idx].sprites_inside.push(id);
            proof {
                self.lemma_frame_one_cell(*old(self), x as int, y as int, idx as int);
            }
        }
    }

    /// Unregisters the first registration of `id` on the tile at
    /// `(x, y)`; out of bounds, does nothing.
    pub fn remove_sprite_at(&mut self, x: i64, y: i64, id: SpriteId)
        requires
            old(self).wf(),
        ensures
            final(self).wf(),
            final(self).spec_width() == old(self).spec_width(),
            final(self).spec_height() == old(self).spec_height(),
            !old(self).spec_in_bounds(x as int, y as int) ==> *final(self) == *old(self),
            old(self).spec_in_bounds(x as int, y as int) ==> {
                &&& forall|i: int, j: int|
                    old(self).spec_in_bounds(i, j) && !(i == x as int && j == y as int)
                        ==> #[trigger] final(self).spec_tile(i, j) == old(self).spec_tile(i, j)
                &&& Tile::same_but_sprites(
                    final(self).spec_tile(x as int, y as int),
                    old(self).spec_tile(x as int, y as int),
                )
                &&& {
                    let before = old(self).spec_tile(x as int, y as int).sprites_inside@;
                    let after = final(self).spec_tile(x as int, y as int).sprites_inside@;
                    if before.contains(id) {
                        after.to_multiset() == before.to_multiset().remove(id)
                    } else {
                        after == before
                    }
                }
            },
    {
        if x >= 0 && y >= 0 && x < (self.width as i64) && y < (self.height as i64) {
            let xi: usize = x as usize;
            let yi: usize = y as usize;
            proof {
                assert(yi * self.width + xi < self.tiles@.len() && yi * self.width + xi
                    < 0x4000_0000) by (nonlinear_arith)
                    requires
                        yi < self.height,
                        xi < self.width,
                        self.width <= 0x8000,
                        self.height <= 0x8000,
                        self.tiles@.len() == (self.width as int) * (self.height as int),
                ;
            }
            let idx: usize = yi * self.width + xi;
            remove_first_sprite(&mut self.tiles[idx].sprites_inside, id);
            proof {
                self.lemma_frame_one_cell(*old(self), x as int, y as int, idx as int);
            }
        }
    }

    /// After updating the tile at flat index `idx`, every other cell is
    /// untouched and the updated cell sits where expected.
    proof fn lemma_frame_one_cell(self, pre: TileMap, x: int, y: int, idx: int)
        requires
            pre.wf(),
            pre.spec_in_bounds(x, y),
            idx == y * pre.spec_width() + x,
            self.spec_width() == pre.spec_width(),
            self.spec_height() == pre.spec_height(),
            self.spec_tiles().len() == pre.spec_tiles().len(),
            forall|n: int|
                0 <= n < pre.spec_tiles().len() && n != idx ==> #[trigger] self.spec_tiles()[n]
                    == pre.spec_tiles()[n],
        ensures
            forall|i: int, j: int|
                pre.spec_in_bounds(i, j) && !(i == x && j == y) ==> #[trigger] self.spec_tile(i, j)
                    == pre.spec_tile(i, j),
            self.spec_tile(x, y) == self.spec_tiles()[idx],
            pre.spec_tile(x, y) == pre.spec_tiles()[idx],
    {
        pre.lemma_index(x, y);
        assert forall|i: int, j: int|
            pre.spec_in_bounds(i, j) && !(i == x && j == y) implies #[trigger] self.spec_tile(i, j)
            == pre.spec_tile(i, j) by {
            pre.lemma_index(i, j);
            if j * pre.spec_width() + i == idx {
                pre.lemma_index_injective(i, j, x, y);
            }
        }
    }

    /// Moves a sprite to `new_pos`, keeping the per-tile sprite index in
    /// step with the position in one update, so no frame can observe the
    /// sprite registered in stale cells, duplicated, or nowhere: given
    /// that `sprite_id` was registered exactly once on exactly the
    /// in-bounds cells of its old footprint, afterwards it is registered
    /// exactly once on exactly the in-bounds cells of its new footprint,
    /// every other id keeps its registrations everywhere, and cells
    /// outside both footprints are untouched.
    pub fn move_sprite(&mut self, sprite_id: SpriteId, sprite: &mut Sprite, new_pos: Vec2x)
        requires
            old(self).wf(),
            old(sprite).wf(),
            iabs(new_pos.x.raw as int) <= crate::world::SPRITE_POS_LIMIT,
            iabs(new_pos.y.raw as int) <= crate::world::SPRITE_POS_LIMIT,
            forall|i: int, j: int|
                old(self).spec_in_bounds(i, j) ==> (#[trigger] old(self).spec_tile(
                    i,
                    j,
                )).sprites_inside@.to_multiset().count(sprite_id) == {
                    let (ol, or_, ot, ob) = spec_footprint(old(sprite).pos, old(sprite).size);
                    if ol <= i <= or_ && ot <= j <= ob {
                        1nat
                    } else {
                        0nat
                    }
                },
        ensures
            final(self).wf(),
            final(self).spec_width() == old(self).spec_width(),
            final(self).spec_height() == old(self).spec_height(),
            *final(sprite) == (Sprite { pos: new_pos, ..*old(sprite) }),
            final(sprite).wf(),
            spec_footprint(old(sprite).pos, old(sprite).size) == spec_footprint(
                new_pos,
                old(sprite).size,
            ) ==> forall|i: int, j: int|
                old(self).spec_in_bounds(i, j) ==> #[trigger] final(self).spec_tile(i, j) == old(
                    self,
                ).spec_tile(i, j),
            forall|i: int, j: int|
                old(self).spec_in_bounds(i, j) ==> Tile::same_but_sprites(
                    #[trigger] final(self).spec_tile(i, j),
                    old(self).spec_tile(i, j),
                ),
            forall|i: int, j: int|
                old(self).spec_in_bounds(i, j) ==> (#[trigger] final(self).spec_tile(
                    i,
                    j,
                )).sprites_inside@.to_multiset().count(sprite_id) == {
                    let (nl, nr, nt, nb) = spec_footprint(new_pos, old(sprite).size);
                    if nl <= i <= nr && nt <= j <= nb {
                        1nat
                    } else {
                        0nat
                    }
                },
            forall|i: int, j: int, s: SpriteId|
                old(self).spec_in_bounds(i, j) && s != sprite_id ==> #[trigger] final(self).spec_tile(i, j).sprites_inside@.to_multiset().count(s) == old(self).spec_tile(
                    i,
                    j,
                ).sprites_inside@.to_multiset().count(s),
            forall|i: int, j: int|
                old(self).spec_in_bounds(i, j) && !({
                    let (ol, or_, ot, ob) = spec_footprint(old(sprite).pos, old(sprite).size);
                    ol <= i <= or_ && ot <= j <= ob
                }) && !({
                    let (nl, nr, nt, nb) = spec_footprint(new_pos, old(sprite).size);
                    nl <= i <= nr && nt <= j <= nb
                }) ==> #[trigger] final(self).spec_tile(i, j) == old(self).spec_tile(i, j),
    {
        let size: Fx = sprite.size;
        let half: i64 = ((size.raw as u64) / 2) as i64;
        let old_left: i64 = sprite.pos.x.sub(Fx { raw: half }).floor_int();
        let old_right: i64 = sprite.pos.x.add(Fx { raw: half }).floor_int();
        let old_top: i64 = sprite.pos.y.sub(Fx { raw: half }).floor_int();
        let old_bottom: i64 = sprite.pos.y.add(Fx { raw: half }).floor_int();
        let new_left: i64 = new_pos.x.sub(Fx { raw: half }).floor_int();
        let new_right: i64 = new_pos.x.add(Fx { raw: half }).floor_int();
        let new_top: i64 = new_pos.y.sub(Fx { raw: half }).floor_int();
        let new_bottom: i64 = new_pos.y.add(Fx { raw: half }).floor_int();
        proof {
            crate::fx::lemma_div_abs_shrink(
                old(sprite).pos.x.raw - half,
                0x40_0000_0000,
                65536int,
            );
            crate::fx::lemma_div_abs_shrink(
                old(sprite).pos.x.raw + half,
                0x40_0000_0000,
                65536int,
            );
            crate::fx::lemma_div_abs_shrink(
                old(sprite).pos.y.raw - half,
                0x40_0000_0000,
                65536int,
            );
            crate::fx::lemma_div_abs_shrink(
                old(sprite).pos.y.raw + half,
                0x40_0000_0000,
                65536int,
            );
            crate::fx::lemma_div_abs_shrink(new_pos.x.raw - half, 0x40_0000_0000, 65536int);
            crate::fx::lemma_div_abs_shrink(new_pos.x.raw + half, 0x40_0000_0000, 65536int);
            crate::fx::lemma_div_abs_shrink(new_pos.y.raw - half, 0x40_0000_0000, 65536int);
            crate::fx::lemma_div_abs_shrink(new_pos.y.raw + half, 0x40_0000_0000, 65536int);
            vstd::arithmetic::div_mod::lemma_div_is_ordered(
                old(sprite).pos.x.raw - half,
                old(sprite).pos.x.raw + half,
                65536,
            );
            vstd::arithmetic::div_mod::lemma_div_is_ordered(
                old(sprite).pos.y.raw - half,
                old(sprite).pos.y.raw + half,
                65536,
            );
            vstd::arithmetic::div_mod::lemma_div_is_ordered(
                new_pos.x.raw - half,
                new_pos.x.raw + half,
                65536,
            );
            vstd::arithmetic::div_mod::lemma_div_is_ordered(
                new_pos.y.raw - half,
                new_pos.y.raw + half,
                65536,
            );
            assert(spec_footprint(old(sprite).pos, old(sprite).size) == (
                old_left as int,
                old_right as int,
                old_top as int,
                old_bottom as int,
            ));
            assert(spec_footprint(new_pos, old(sprite).size) == (
                new_left as int,
                new_right as int,
                new_top as int,
                new_bottom as int,
            ));
        }
        sprite.pos = new_pos;
        if old_top == new_top && old_bottom == new_bottom && new_left == old_left && old_right
            == new_right {
            return ;
        }
        let mut y: i64 = old_top;
        while y <= old_bottom
            invariant
                self.wf(),
                self.spec_width() == old(self).spec_width(),
                self.spec_height() == old(self).spec_height(),
                old_top <= y <= old_bottom + 1,
                old_left <= old_right,
                iabs(old_top as int) <= 0x80_0000,
                iabs(old_bottom as int) <= 0x80_0000,
                iabs(old_left as int) <= 0x80_0000,
                iabs(old_right as int) <= 0x80_0000,
                forall|i: int, j: int|
                    old(self).spec_in_bounds(i, j) ==> (#[trigger] old(self).spec_tile(
                        i,
                        j,
                    )).sprites_inside@.to_multiset().count(sprite_id) == (if old_left <= i
                        <= old_right && old_top <= j <= old_bottom {
                        1nat
                    } else {
                        0nat
                    }),
                forall|i: int, j: int|
                    old(self).spec_in_bounds(i, j) ==> Tile::same_but_sprites(
                        #[trigger] self.spec_tile(i, j),
                        old(self).spec_tile(i, j),
                    ),
                forall|i: int, j: int|
                    old(self).spec_in_bounds(i, j) && !(old_left <= i <= old_right && old_top <= j
                        < y) ==> #[trigger] self.spec_tile(i, j) == old(self).spec_tile(i, j),
                forall|i: int, j: int|
                    old(self).spec_in_bounds(i, j) && old_left <= i <= old_right && old_top <= j
                        < y ==> (#[trigger] self.spec_tile(
                        i,
                        j,
                    )).sprites_inside@.to_multiset().count(sprite_id) == 0,
                forall|i: int, j: int, s: SpriteId|
                    old(self).spec_in_bounds(i, j) && s != sprite_id ==> #[trigger] self.spec_tile(
                        i,
                        j,
                    ).sprites_inside@.to_multiset().count(s) == old(self).spec_tile(
                        i,
                        j,
                    ).sprites_inside@.to_multiset().count(s),
            decreases old_bottom - y + 1,
        {
            let mut x: i64 = old_left;
            while x <= old_right
                invariant
                    self.wf(),
                    self.spec_width() == old(self).spec_width(),
                    self.spec_height() == old(self).spec_height(),
                    old_left <= x <= old_right + 1,
                    old_top <= y <= old_bottom,
                    iabs(old_top as int) <= 0x80_0000,
                    iabs(old_bottom as int) <= 0x80_0000,
                    iabs(old_left as int) <= 0x80_0000,
                    iabs(old_right as int) <= 0x80_0000,
                    forall|i: int, j: int|
                        old(self).spec_in_bounds(i, j) ==> (#[trigger] old(self).spec_tile(
                            i,
                            j,
                        )).sprites_inside@.to_multiset().count(sprite_id) == (if old_left <= i
                            <= old_right && old_top <= j <= old_bottom {
                            1nat
                        } else {
                            0nat
                        }),
                    forall|i: int, j: int|
                        old(self).spec_in_bounds(i, j) ==> Tile::same_but_sprites(
                            #[trigger] self.spec_tile(i, j),
                            old(self).spec_tile(i, j),
                        ),
                    forall|i: int, j: int|
                        old(self).spec_in_bounds(i, j) && !(old_left <= i <= old_right && (old_top
                            <= j < y || (j == y && i < x))) ==> #[trigger] self.spec_tile(i, j)
                            == old(self).spec_tile(i, j),
                    forall|i: int, j: int|
                        old(self).spec_in_bounds(i, j) && old_left <= i <= old_right && (old_top
                            <= j < y || (j == y && i < x)) ==> (#[trigger] self.spec_tile(
                            i,
                            j,
                        )).sprites_inside@.to_multiset().count(sprite_id) == 0,
                    forall|i: int, j: int, s: SpriteId|
                        old(self).spec_in_bounds(i, j) && s != sprite_id
                            ==> #[trigger] self.spec_tile(
                            i,
                            j,
                        ).sprites_inside@.to_multiset().count(s) == old(self).spec_tile(
                            i,
                            j,
                        ).sprites_inside@.to_multiset().count(s),
                decreases old_right - x + 1,
            {
                let ghost pre: TileMap = *self;
                self.remove_sprite_at(x, y, sprite_id);
                proof {
                    broadcast use vstd::seq_lib::to_multiset_contains;
                    broadcast use vstd::multiset::group_multiset_axioms;

                    lemma_same_but_sprites_trans(*self, pre, *old(self));
                    if old(self).spec_in_bounds(x as int, y as int) {
                        let before = pre.spec_tile(x as int, y as int).sprites_inside@;
                        let after = self.spec_tile(x as int, y as int).sprites_inside@;
                        assert(before == old(self).spec_tile(x as int, y as int).sprites_inside@);
                        assert(before.to_multiset().count(sprite_id) == 1);
                        assert(before.contains(sprite_id));
                        assert(after.to_multiset() == before.to_multiset().remove(sprite_id));
                        assert(after.to_multiset().count(sprite_id) == 0);
                        assert forall|s: SpriteId| s != sprite_id implies after.to_multiset().count(
                            s,
                        ) == before.to_multiset().count(s) by {}
                    }
                }
                x = x + 1;
            }
            y = y + 1;
        }
        let ghost mid: TileMap = *self;
        proof {
            broadcast use vstd::seq_lib::to_multiset_contains;

            assert forall|i: int, j: int| old(self).spec_in_bounds(i, j) implies (
            #[trigger] mid.spec_tile(i, j)).sprites_inside@.to_multiset().count(sprite_id)
                == 0 by {
                if !(old_left <= i <= old_right && old_top <= j <= old_bottom) {
                    assert(mid.spec_tile(i, j) == old(self).spec_tile(i, j));
                }
            }
        }
        let mut y2: i64 = new_top;
        while y2 <= new_bottom
            invariant
                self.wf(),
                self.spec_width() == old(self).spec_width(),
                self.spec_height() == old(self).spec_height(),
                new_top <= y2 <= new_bottom + 1,
                new_left <= new_right,
                iabs(new_top as int) <= 0x80_0000,
                iabs(new_bottom as int) <= 0x80_0000,
                iabs(new_left as int) <= 0x80_0000,
                iabs(new_right as int) <= 0x80_0000,
                mid.spec_width() == old(self).spec_width(),
                mid.spec_height() == old(self).spec_height(),
                forall|i: int, j: int|
                    old(self).spec_in_bounds(i, j) ==> (#[trigger] mid.spec_tile(
                        i,
                        j,
                    )).sprites_inside@.to_multiset().count(sprite_id) == 0,
                forall|i: int, j: int|
                    old(self).spec_in_bounds(i, j) && !(old_left <= i <= old_right && old_top <= j
                        <= old_bottom) ==> #[trigger] mid.spec_tile(i, j) == old(self).spec_tile(
                        i,
                        j,
                    ),
                forall|i: int, j: int, s: SpriteId|
                    old(self).spec_in_bounds(i, j) && s != sprite_id ==> #[trigger] mid.spec_tile(
                        i,
                        j,
                    ).sprites_inside@.to_multiset().count(s) == old(self).spec_tile(
                        i,
                        j,
                    ).sprites_inside@.to_multiset().count(s),
                forall|i: int, j: int|
                    old(self).spec_in_bounds(i, j) ==> Tile::same_but_sprites(
                        #[trigger] self.spec_tile(i, j),
                        old(self).spec_tile(i, j),
                    ),
                forall|i: int, j: int|
                    old(self).spec_in_bounds(i, j) && !(new_left <= i <= new_right && new_top <= j
                        < y2) ==> #[trigger] self.spec_tile(i, j) == mid.spec_tile(i, j),
                forall|i: int, j: int|
                    old(self).spec_in_bounds(i, j) && new_left <= i <= new_right && new_top <= j
                        < y2 ==> (#[trigger] self.spec_tile(
                        i,
                        j,
                    )).sprites_inside@.to_multiset().count(sprite_id) == 1,
                forall|i: int, j: int, s: SpriteId|
                    old(self).spec_in_bounds(i, j) && s != sprite_id ==> #[trigger] self.spec_tile(
                        i,
                        j,
                    ).sprites_inside@.to_multiset().count(s) == mid.spec_tile(
                        i,
                        j,
                    ).sprites_inside@.to_multiset().count(s),
            decreases new_bottom - y2 + 1,
        {
            let mut x2: i64 = new_left;
            while x2 <= new_right
                invariant
                    self.wf(),
                    self.spec_width() == old(self).spec_width(),
                    self.spec_height() == old(self).spec_height(),
                    new_left <= x2 <= new_right + 1,
                    new_top <= y2 <= new_bottom,
                    iabs(new_top as int) <= 0x80_0000,
                    iabs(new_bottom as int) <= 0x80_0000,
                    iabs(new_left as int) <= 0x80_0000,
                    iabs(new_right as int) <= 0x80_0000,
                    mid.spec_width() == old(self).spec_width(),
                    mid.spec_height() == old(self).spec_height(),
                    forall|i: int, j: int|
                        old(self).spec_in_bounds(i, j) ==> (#[trigger] mid.spec_tile(
                            i,
                            j,
                        )).sprites_inside@.to_multiset().count(sprite_id) == 0,
                    forall|i: int, j: int|
                        old(self).spec_in_bounds(i, j) && !(old_left <= i <= old_right && old_top
                            <= j <= old_bottom) ==> #[trigger] mid.spec_tile(i, j) == old(
                            self,
                        ).spec_tile(i, j),
                    forall|i: int, j: int, s: SpriteId|
                        old(self).spec_in_bounds(i, j) && s != sprite_id
                            ==> #[trigger] mid.spec_tile(
                            i,
                            j,
                        ).sprites_inside@.to_multiset().count(s) == old(self).spec_tile(
                            i,
                            j,
                        ).sprites_inside@.to_multiset().count(s),
                    forall|i: int, j: int|
                        old(self).spec_in_bounds(i, j) ==> Tile::same_but_sprites(
                            #[trigger] self.spec_tile(i, j),
                            old(self).spec_tile(i, j),
                        ),
                    forall|i: int, j: int|
                        old(self).spec_in_bounds(i, j) && !(new_left <= i <= new_right && (new_top
                            <= j < y2 || (j == y2 && i < x2))) ==> #[trigger] self.spec_tile(i, j)
                            == mid.spec_tile(i, j),
                    forall|i: int, j: int|
                        old(self).spec_in_bounds(i, j) && new_left <= i <= new_right && (new_top
                            <= j < y2 || (j == y2 && i < x2)) ==> (#[trigger] self.spec_tile(
                            i,
                            j,
                        )).sprites_inside@.to_multiset().count(sprite_id) == 1,
                    forall|i: int, j: int, s: SpriteId|
                        old(self).spec_in_bounds(i, j) && s != sprite_id
                            ==> #[trigger] self.spec_tile(
                            i,
                            j,
                        ).sprites_inside@.to_multiset().count(s) == mid.spec_tile(
                            i,
                            j,
                        ).sprites_inside@.to_multiset().count(s),
                decreases new_right - x2 + 1,
            {
                let ghost pre: TileMap = *self;
                self.push_sprite_at(x2, y2, sprite_id);
                proof {
                    broadcast use vstd::seq_lib::group_to_multiset_ensures;
                    broadcast use vstd::multiset::group_multiset_axioms;

                    lemma_same_but_sprites_trans(*self, pre, *old(self));
                    if old(self).spec_in_bounds(x2 as int, y2 as int) {
                        let before = pre.spec_tile(x2 as int, y2 as int).sprites_inside@;
                        let after = self.spec_tile(x2 as int, y2 as int).sprites_inside@;
                        assert(before == mid.spec_tile(x2 as int, y2 as int).sprites_inside@);
                        assert(after == before.push(sprite_id));
                        assert(after.to_multiset() == before.to_multiset().insert(sprite_id));
                        assert(after.to_multiset().count(sprite_id) == 1);
                        assert forall|s: SpriteId| s != sprite_id implies after.to_multiset().count(
                            s,
                        ) == before.to_multiset().count(s) by {}
                    }
                }
                x2 = x2 + 1;
            }
            y2 = y2 + 1;
        }
        proof {
            assert forall|i: int, j: int| old(self).spec_in_bounds(i, j) implies (
            #[trigger] self.spec_tile(i, j)).sprites_inside@.to_multiset().count(sprite_id) == (
            if new_left <= i <= new_right && new_top <= j <= new_bottom {
                1nat
            } else {
                0nat
            }) by {
                if !(new_left <= i <= new_right && new_top <= j <= new_bottom) {
                    assert(self.spec_tile(i, j) == mid.spec_tile(i, j));
                }
            }
            assert forall|i: int, j: int, s: SpriteId|
                old(self).spec_in_bounds(i, j) && s != sprite_id implies #[trigger] self.spec_tile(
                i,
                j,
            ).sprites_inside@.to_multiset().count(s) == old(self).spec_tile(
                i,
                j,
            ).sprites_inside@.to_multiset().count(s) by {
                assert(self.spec_tile(i, j).sprites_inside@.to_multiset().count(s)
                    == mid.spec_tile(i, j).sprites_inside@.to_multiset().count(s));
            }
            assert forall|i: int, j: int|
                old(self).spec_in_bounds(i, j) && !(old_left <= i <= old_right && old_top <= j
                    <= old_bottom) && !(new_left <= i <= new_right && new_top <= j <= new_bottom)
                implies #[trigger] self.spec_tile(i, j) == old(self).spec_tile(i, j) by {
                assert(self.spec_tile(i, j) == mid.spec_tile(i, j));
                assert(mid.spec_tile(i, j) == old(self).spec_tile(i, j));
            }
        }
    }
}

/// The cells a sprite's square footprint overlaps: both corners floored.
pub open spec fn spec_footprint(pos: Vec2x, size: Fx) -> (int, int, int, int) {
    let half = (size.raw as int) / 2;
    (
        (pos.x.raw - half) / 65536int,
        (pos.x.raw + half) / 65536int,
        (pos.y.raw - half) / 65536int,
        (pos.y.raw + half) / 65536int,
    )
}

/// Cellwise agreement of everything but the sprite index is transitive.
proof fn lemma_same_but_sprites_trans(a: TileMap, b: TileMap, c: TileMap)
    requires
        a.spec_width() == c.spec_width(),
        a.spec_height() == c.spec_height(),
        b.spec_width() == c.spec_width(),
        b.spec_height() == c.spec_height(),
        forall|i: int, j: int|
            c.spec_in_bounds(i, j) ==> Tile::same_but_sprites(
                #[trigger] a.spec_tile(i, j),
                b.spec_tile(i, j),
            ) || a.spec_tile(i, j) == b.spec_tile(i, j),
        forall|i: int, j: int|
            c.spec_in_bounds(i, j) ==> Tile::same_but_sprites(
                #[trigger] b.spec_tile(i, j),
                c.spec_tile(i, j),
            ),
    ensures
        forall|i: int, j: int|
            c.spec_in_bounds(i, j) ==> Tile::same_but_sprites(
                #[trigger] a.spec_tile(i, j),
                c.spec_tile(i, j),
            ),
{
}

/// An integer rounded toward zero from fixed-point, as the truncating
/// float-to-integer cast of the collision queries does.
pub open spec fn spec_trunc(v: int) -> int {
    if v >= 0 {
        v / 65536int
    } else {
        -((-v) / 65536int)
    }
}

/// An index in an earlier column of the walk lies before the current
/// column's block.
proof fn lemma_grid_index_lt(i: int, x: int, left: int, j: int, up: int, down: int, ny: int)
    by (nonlinear_arith)
    requires
        ny == down - up + 1,
        left <= i < x,
        up <= j <= down,
    ensures
        0 <= (i - left) * ny + (j - up) < (x - left) * ny,
{
}

/// Truncation toward zero is monotone.
proof fn lemma_trunc_monotone(a: int, b: int)
    by (nonlinear_arith)
    requires
        a <= b,
    ensures
        spec_trunc(a) <= spec_trunc(b),
{
}

impl TileMap {
    /// Whether any cell of the square of half-width `size` around `pos`
    /// blocks movement.
    pub open spec fn spec_square_colliding(self, pos: Vec2x, size: Fx) -> bool {
        exists|i: int, j: int|
            spec_trunc(pos.x.raw - size.raw) <= i <= spec_trunc(pos.x.raw + size.raw)
                && spec_trunc(pos.y.raw - size.raw) <= j <= spec_trunc(pos.y.raw + size.raw)
                && self.spec_in_bounds(i, j) && spec_solid(
                (#[trigger] self.spec_tile(i, j)).spec_kind(),
            )
    }

    /// Whether any cell of the square of half-width `size` around `pos`
    /// blocks movement.
    pub fn square_is_colliding(&self, pos: Vec2x, size: Fx) -> (r: bool)
        requires
            self.wf(),
            iabs(pos.x.raw as int) <= 0x100_0000_0000,
            iabs(pos.y.raw as int) <= 0x100_0000_0000,
            0 <= size.raw <= 0x100_0000_0000,
        ensures
            r == self.spec_square_colliding(pos, size),
    {
        let left: i64 = pos.x.sub(size).trunc_int();
        let right: i64 = pos.x.add(size).trunc_int();
        let up: i64 = pos.y.sub(size).trunc_int();
        let down: i64 = pos.y.add(size).trunc_int();
        proof {
            lemma_trunc_monotone(pos.x.raw - size.raw, pos.x.raw + size.raw);
            lemma_trunc_monotone(pos.y.raw - size.raw, pos.y.raw + size.raw);
        }
        let mut x: i64 = left;
        while x <= right
            invariant
                self.wf(),
                left <= x,
                left == spec_trunc(pos.x.raw - size.raw),
                right == spec_trunc(pos.x.raw + size.raw),
                up == spec_trunc(pos.y.raw - size.raw),
                down == spec_trunc(pos.y.raw + size.raw),
                iabs(left as int) <= 0x200_0000,
                iabs(right as int) <= 0x200_0000,
                iabs(up as int) <= 0x200_0000,
                iabs(down as int) <= 0x200_0000,
                forall|i: int, j: int|
                    left <= i < x && up <= j <= down ==> !(self.spec_in_bounds(i, j) && spec_solid(
                        (#[trigger] self.spec_tile(i, j)).spec_kind(),
                    )),
            decreases right - x + 1,
        {
            let mut y: i64 = up;
            while y <= down
                invariant
                    self.wf(),
                    left <= x <= right,
                    up <= y,
                    up == spec_trunc(pos.y.raw - size.raw),
                    down == spec_trunc(pos.y.raw + size.raw),
                    left == spec_trunc(pos.x.raw - size.raw),
                    right == spec_trunc(pos.x.raw + size.raw),
                    iabs(left as int) <= 0x200_0000,
                    iabs(right as int) <= 0x200_0000,
                    iabs(up as int) <= 0x200_0000,
                    iabs(down as int) <= 0x200_0000,
                    forall|i: int, j: int|
                        left <= i < x && up <= j <= down ==> !(self.spec_in_bounds(i, j)
                            && spec_solid((#[trigger] self.spec_tile(i, j)).spec_kind())),
                    forall|j: int|
                        up <= j < y ==> !(self.spec_in_bounds(x as int, j) && spec_solid(
                            (#[trigger] self.spec_tile(x as int, j)).spec_kind(),
                        )),
                decreases down - y + 1,
            {
                if self.tile_is_colliding(x, y) {
                    proof {
                        assert(self.spec_square_colliding(pos, size)) by {
                            assert(left <= x as int <= right && up <= y as int <= down
                                && self.spec_in_bounds(x as int, y as int) && spec_solid(
                                self.spec_tile(x as int, y as int).spec_kind(),
                            ));
                        }
                    }
                    return true;
                }
                y = y + 1;
            }
            x = x + 1;
        }
        false
    }
}

/// The tile coordinates whose cells a square around `pos` touches: both
/// corners truncated toward zero, walked column by column.
pub fn tiles_in_square(pos: Vec2x, half_size: Fx) -> (r: Vec<(i64, i64)>)
    requires
        iabs(pos.x.raw as int) <= 0x100_0000_0000,
        iabs(pos.y.raw as int) <= 0x100_0000_0000,
        0 <= half_size.raw <= 0x100_0000_0000,
    ensures
        ({
            let left = spec_trunc(pos.x.raw - half_size.raw);
            let right = spec_trunc(pos.x.raw + half_size.raw);
            let up = spec_trunc(pos.y.raw - half_size.raw);
            let down = spec_trunc(pos.y.raw + half_size.raw);
            &&& r@.len() == (right - left + 1) * (down - up + 1)
            &&& forall|i: int, j: int|
                left <= i <= right && up <= j <= down ==> #[trigger] r@[(i - left) * (down - up + 1)
                    + (j - up)] == (i as i64, j as i64)
            &&& forall|k: int|
                0 <= k < r@.len() ==> left <= (#[trigger] r@[k]).0 <= right && up <= r@[k].1 <= down
        }),
{
    let left: i64 = pos.x.sub(half_size).trunc_int();
    let right: i64 = pos.x.add(half_size).trunc_int();
    let up: i64 = pos.y.sub(half_size).trunc_int();
    let down: i64 = pos.y.add(half_size).trunc_int();
    proof {
        lemma_trunc_monotone(pos.x.raw - half_size.raw, pos.x.raw + half_size.raw);
        lemma_trunc_monotone(pos.y.raw - half_size.raw, pos.y.raw + half_size.raw);
    }
    let ny: i64 = down - up + 1;
    let mut r: Vec<(i64, i64)> = Vec::new();
    let mut x: i64 = left;
    while x <= right
        invariant
            left <= x <= right + 1,
            ny == down - up + 1,
            ny >= 1,
            left <= right,
            up <= down,
            iabs(left as int) <= 0x200_0000,
            iabs(right as int) <= 0x200_0000,
            iabs(up as int) <= 0x200_0000,
            iabs(down as int) <= 0x200_0000,
            r@.len() == (x - left) * ny,
            forall|i: int, j: int|
                left <= i < x && up <= j <= down ==> #[trigger] r@[(i - left) * ny + (j - up)] == (
                i as i64,
                j as i64,
            ),
            forall|k: int|
                0 <= k < r@.len() ==> left <= (#[trigger] r@[k]).0 <= right && up <= r@[k].1
                    <= down,
        decreases right - x + 1,
    {
        let mut y: i64 = up;
        while y <= down
            invariant
                left <= x <= right,
                up <= y <= down + 1,
                ny == down - up + 1,
                left <= right,
                up <= down,
                iabs(left as int) <= 0x200_0000,
                iabs(right as int) <= 0x200_0000,
                iabs(up as int) <= 0x200_0000,
                iabs(down as int) <= 0x200_0000,
                r@.len() == (x - left) * ny + (y - up),
                forall|i: int, j: int|
                    left <= i < x && up <= j <= down ==> #[trigger] r@[(i - left) * ny + (j - up)]
                        == (i as i64, j as i64),
                forall|j: int|
                    up <= j < y ==> #[trigger] r@[(x - left) * ny + (j - up)] == (x, j as i64),
                forall|k: int|
                    0 <= k < r@.len() ==> left <= (#[trigger] r@[k]).0 <= right && up <= r@[k].1
                        <= down,
            decreases down - y + 1,
        {
            let ghost r0: Seq<(i64, i64)> = r@;
            r.push((x, y));
            proof {
                assert forall|i: int, j: int| left <= i < x && up <= j <= down implies #[trigger] r@[
                    (i - left) * ny + (j - up)
                ] == (i as i64, j as i64) by {
                    lemma_grid_index_lt(i, x as int, left as int, j, up as int, down as int, ny as int);
                    assert(r@[(i - left) * ny + (j - up)] == r0[(i - left) * ny + (j - up)]);
                }
            }
            y = y + 1;
        }
        proof {
            assert((x + 1 - left) * ny == (x - left) * ny + ny) by (nonlinear_arith);
            assert forall|i: int, j: int| left <= i < x + 1 && up <= j <= down implies #[trigger] r@[
                (i - left) * ny + (j - up)
            ] == (i as i64, j as i64) by {
                if i == x {
                    assert((i - left) * ny == (x - left) * ny);
                    assert(r@[(x - left) * ny + (j - up)] == (x, j as i64));
                }
            }
        }
        x = x + 1;
    }
    r
}

} // verus!
