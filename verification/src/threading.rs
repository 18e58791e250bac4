//! The per-column render pipeline and the fork-join work scheduler.
//!
//! For one screen column, the hit collector drives the ray walker through
//! the tile grid, gathering wall and sprite hits; the depth sorter orders
//! them by ascending distance; the compositor then paints them back to
//! front into the column. The scheduler partitions the screen's columns
//! into fixed-size work items over a shared queue; rendering the whole
//! frame through that queue on the calling thread is verified here, and
//! worker threads popping from the same queue go through the identical
//! per-item entry point.

use crate::fx::{iabs, lemma_div_shrinks, lemma_mul_ok, Fx};
use crate::mat2::{inverse_mat2, Mat2x, Vec2x, MAT_VEC_LIMIT};
use crate::render::ImageColumn;
use crate::raycast::{spec_walker_init, RayStep, RayWalker, Raycast};
use crate::texture::{spec_texture_index, Textures};
use crate::world::{SpriteId, World, SPRITE_SIZE_LIMIT};
use vstd::prelude::*;

verus! {

/// Columns per work item.
pub const SPLIT_SIZE: usize = 64;

/// Largest admissible magnitude for the camera position (raw units).
pub const CAM_POS_LIMIT: i64 = 0x20_0000_0000;

/// Largest admissible magnitude for a column's aspect-corrected screen
/// offset (raw units).
pub const SCREEN_OFF_LIMIT: i64 = 0x400_0000;

/// Hits farther than this are not drawn: their strip would be smaller
/// than anything representable.
pub const DIST_DRAW_LIMIT: i64 = 0x40_0000_0000;

/// One hit along a column's ray: distance along the ray (or camera-space
/// depth for sprites), horizontal texture offset, the resolved bitmap (an
/// index into the texture store), angular size scale, and vertical anchor.
#[derive(Clone, Copy, PartialEq, Eq, Structural, Debug)]
pub struct HitData {
    pub dist: Fx,
    pub size: Fx,
    pub uv: Fx,
    pub image: usize,
    pub y_pos: Fx,
}

impl HitData {
    /// A hit the compositor can consume.
    pub open spec fn wf(self, textures: Textures) -> bool {
        &&& self.image < textures.images@.len()
        &&& 1 <= self.size.raw <= SPRITE_SIZE_LIMIT
        &&& 0 <= self.uv.raw < 65536
        &&& 0 <= self.y_pos.raw <= 65536
        &&& iabs(self.dist.raw as int) <= MAT_VEC_LIMIT
    }
}

/// The hit a sprite contributes to a column, if its angular footprint
/// covers the column's ray: the sprite's position is taken to camera
/// space by the inverse camera basis, and the projected horizontal hit
/// position must fall within the sprite's width.
pub open spec fn spec_sprite_hit(
    world: World,
    textures: Textures,
    cam_pos: Vec2x,
    inv: Mat2x,
    fxo: Fx,
    id: SpriteId,
) -> Option<HitData> {
    let sp = world.sprites.spec_get(id.value as int)->Some_0;
    let dx = Fx { raw: (sp.pos.x.raw - cam_pos.x.raw) as i64 };
    let dy = Fx { raw: (sp.pos.y.raw - cam_pos.y.raw) as i64 };
    let rel_x = Mat2x::spec_row_apply(inv.m00, inv.m01, dx, dy);
    let rel_y = Mat2x::spec_row_apply(inv.m10, inv.m11, dx, dy);
    let num = rel_x - (fxo.raw * rel_y) / 65536int;
    let hx = 32768 + (num * 65536) / (sp.size.raw as int);
    if 0 <= hx < 65536 {
        Some(
            HitData {
                dist: Fx { raw: rel_y as i64 },
                uv: Fx { raw: hx as i64 },
                image: textures.textures@[spec_texture_index(sp.texture)].id,
                size: sp.size,
                y_pos: sp.y_pos,
            },
        )
    } else {
        None
    }
}

/// The sprite hits a floor tile's occupants contribute, in index order.
pub open spec fn spec_sprite_hits(
    world: World,
    textures: Textures,
    cam_pos: Vec2x,
    inv: Mat2x,
    fxo: Fx,
    list: Seq<SpriteId>,
) -> Seq<HitData>
    decreases list.len(),
{
    if list.len() == 0 {
        Seq::empty()
    } else {
        let prefix = spec_sprite_hits(world, textures, cam_pos, inv, fxo, list.drop_last());
        match spec_sprite_hit(world, textures, cam_pos, inv, fxo, list.last()) {
            Some(h) => prefix.push(h),
            None => prefix,
        }
    }
}

/// What one tile crossing contributes: wall-like tiles push one hit with
/// the traversal distance and fractional offset, and the cast continues
/// only through transparent ones; floor tiles push their sprites' hits
/// and never stop the cast; leaving the map stops it.
pub open spec fn spec_step_hits(
    world: World,
    textures: Textures,
    cam_pos: Vec2x,
    inv: Mat2x,
    fxo: Fx,
    time: Fx,
    step: RayStep,
) -> (Seq<HitData>, bool) {
    if !world.tiles.spec_in_bounds(step.ix as int, step.iy as int) {
        (Seq::empty(), false)
    } else {
        let tile = world.tiles.spec_tile(step.ix as int, step.iy as int);
        match tile.spec_graphics() {
            Some(g) => (
                seq![
                    HitData {
                        dist: step.total,
                        uv: Fx { raw: (step.frac_x.raw + step.frac_y.raw) as i64 },
                        image: (textures.spec_anim_index(g.texture, time)) as usize,
                        size: Fx { raw: 65536 },
                        y_pos: Fx { raw: 32768 },
                    },
                ],
                g.is_transparent,
            ),
            None => (
                spec_sprite_hits(world, textures, cam_pos, inv, fxo, tile.sprites_inside@),
                true,
            ),
        }
    }
}

/// Every hit the rest of a cast contributes.
pub open spec fn spec_collect_from(
    world: World,
    textures: Textures,
    cam_pos: Vec2x,
    inv: Mat2x,
    fxo: Fx,
    time: Fx,
    walker: RayWalker,
) -> Seq<HitData>
    decreases walker.measure(),
    when walker.wf()
    via spec_collect_from_dec
{
    if walker.spec_done() {
        Seq::empty()
    } else {
        let step = walker.spec_step_of();
        let (hs, cont) = spec_step_hits(world, textures, cam_pos, inv, fxo, time, step);
        if cont {
            hs + spec_collect_from(
                world,
                textures,
                cam_pos,
                inv,
                fxo,
                time,
                walker.spec_next_state(),
            )
        } else {
            hs
        }
    }
}

#[via_fn]
proof fn spec_collect_from_dec(
    world: World,
    textures: Textures,
    cam_pos: Vec2x,
    inv: Mat2x,
    fxo: Fx,
    time: Fx,
    walker: RayWalker,
) {
    if !walker.spec_done() {
        crate::raycast::lemma_next_preserves_wf(walker);
    }
}

/// The hits one column's ray collects, front to back as encountered.
pub open spec fn spec_collect_hits(
    world: World,
    textures: Textures,
    cam_pos: Vec2x,
    inv: Mat2x,
    fxo: Fx,
    time: Fx,
    dir: Vec2x,
) -> Seq<HitData> {
    let cast = Raycast {
        x: cam_pos.x,
        y: cam_pos.y,
        dx: dir.x,
        dy: dir.y,
        max_distance: Fx { raw: 1966080 },
    };
    spec_collect_from(world, textures, cam_pos, inv, fxo, time, spec_walker_init(cast))
}

/// Everything the hit collector needs of the scene: a well-formed world
/// and texture store, a bounded camera pose, a bounded inverse basis and
/// a bounded time.
pub open spec fn scene_wf(
    world: World,
    textures: Textures,
    cam_pos: Vec2x,
    cam_matrix: Mat2x,
    time: Fx,
) -> bool {
    &&& world.wf()
    &&& textures.wf()
    &&& iabs(cam_pos.x.raw as int) <= CAM_POS_LIMIT
    &&& iabs(cam_pos.y.raw as int) <= CAM_POS_LIMIT
    &&& cam_matrix.wf()
    &&& iabs(time.raw as int) <= crate::texture::TIME_LIMIT
}

/// Whether a projected hit position lies in the unit interval, and the
/// position itself when it does. The quotient is taken on wide
/// intermediates, so even a far-out projection is decided exactly.
fn ratio_in_unit(num: i64, size: Fx) -> (r: Option<Fx>)
    requires
        1 <= size.raw,
    ensures
        ({
            let hx = 32768 + (num * 65536) / (size.raw as int);
            &&& (0 <= hx < 65536) ==> r == Some(Fx { raw: hx as i64 })
            &&& !(0 <= hx < 65536) ==> r is None
        }),
{
    let n: i128 = (num as i128) * 65536;
    let q: i128 = crate::fx::div_floor_128(n, size.raw as i128);
    proof {
        crate::fx::lemma_div_abs_bound(n as int, 0x8000_0000_0000_0000_0000_0000int, size.raw as int);
    }
    let hx: i128 = q + 32768;
    if 0 <= hx && hx < 65536 {
        Some(Fx { raw: hx as i64 })
    } else {
        None
    }
}

/// Collects the hits of one column's ray: walls and windows by traversal
/// distance, sprites by camera-space depth, stopping at opaque tiles and
/// at the map edge.
pub fn collect_hits(
    world: &World,
    textures: &Textures,
    cam_pos: Vec2x,
    inv: Mat2x,
    fxo: Fx,
    time: Fx,
    dir: Vec2x,
) -> (r: Vec<HitData>)
    requires
        world.wf(),
        textures.wf(),
        iabs(cam_pos.x.raw as int) <= CAM_POS_LIMIT,
        iabs(cam_pos.y.raw as int) <= CAM_POS_LIMIT,
        inv.wf_inv(),
        iabs(fxo.raw as int) <= SCREEN_OFF_LIMIT,
        iabs(time.raw as int) <= crate::texture::TIME_LIMIT,
        iabs(dir.x.raw as int) <= 0x1_0000_0000,
        iabs(dir.y.raw as int) <= 0x1_0000_0000,
    ensures
        r@ == spec_collect_hits(*world, *textures, cam_pos, inv, fxo, time, dir),
        forall|i: int| 0 <= i < r@.len() ==> (#[trigger] r@[i]).wf(*textures),
{
    let cast: Raycast = Raycast {
        x: cam_pos.x,
        y: cam_pos.y,
        dx: dir.x,
        dy: dir.y,
        max_distance: Fx { raw: 1966080 },
    };
    let mut walker: RayWalker = RayWalker::new(cast);
    let ghost walker0: RayWalker = walker;
    let mut hits: Vec<HitData> = Vec::new();
    proof {
        assert(Seq::<HitData>::empty() + spec_collect_from(
            *world,
            *textures,
            cam_pos,
            inv,
            fxo,
            time,
            walker0,
        ) =~= spec_collect_from(*world, *textures, cam_pos, inv, fxo, time, walker0));
    }
    let mut cont: bool = true;
    while cont
        invariant
            world.wf(),
            textures.wf(),
            iabs(cam_pos.x.raw as int) <= CAM_POS_LIMIT,
            iabs(cam_pos.y.raw as int) <= CAM_POS_LIMIT,
            inv.wf_inv(),
            iabs(fxo.raw as int) <= SCREEN_OFF_LIMIT,
            iabs(time.raw as int) <= crate::texture::TIME_LIMIT,
            walker.wf(),
            forall|i: int| 0 <= i < hits@.len() ==> (#[trigger] hits@[i]).wf(*textures),
            cont ==> hits@ + spec_collect_from(
                *world,
                *textures,
                cam_pos,
                inv,
                fxo,
                time,
                walker,
            ) == spec_collect_from(*world, *textures, cam_pos, inv, fxo, time, walker0),
            !cont ==> hits@ == spec_collect_from(
                *world,
                *textures,
                cam_pos,
                inv,
                fxo,
                time,
                walker0,
            ),
        decreases walker.measure() * 2 + (if cont {
            1int
        } else {
            0int
        }),
    {
        let ghost pre: RayWalker = walker;
        let n: Option<RayStep> = walker.next();
        match n {
            None => {
                proof {
                    assert(hits@ + Seq::<HitData>::empty() =~= hits@);
                }
                cont = false;
            },
            Some(step) => {
                let ghost pre_hits: Seq<HitData> = hits@;
                let tile_opt = world.tiles.get(step.ix, step.iy);
                let mut go: bool = true;
                match tile_opt {
                    None => {
                        go = false;
                    },
                    Some(tile) => {
                        proof {
                            world.tiles.lemma_tile_wf(step.ix as int, step.iy as int);
                        }
                        match tile.get_graphics() {
                            Some(g) => {
                                let image: usize = textures.get_anim_index(&g.texture, time);
                                hits.push(
                                    HitData {
                                        dist: step.total,
                                        uv: step.frac_x.add(step.frac_y),
                                        image,
                                        size: Fx { raw: 65536 },
                                        y_pos: Fx { raw: 32768 },
                                    },
                                );
                                go = g.is_transparent;
                            },
                            None => {
                                let list: &Vec<SpriteId> = &tile.sprites_inside;
                                let mut si: usize = 0;
                                while si < list.len()
                                    invariant
                                        world.wf(),
                                        textures.wf(),
                                        iabs(cam_pos.x.raw as int) <= CAM_POS_LIMIT,
                                        iabs(cam_pos.y.raw as int) <= CAM_POS_LIMIT,
                                        inv.wf_inv(),
                                        iabs(fxo.raw as int) <= SCREEN_OFF_LIMIT,
                                        si <= list@.len(),
                                        world.tiles.spec_in_bounds(
                                            pre.spec_step_of().ix as int,
                                            pre.spec_step_of().iy as int,
                                        ),
                                        list@ == world.tiles.spec_tile(
                                            pre.spec_step_of().ix as int,
                                            pre.spec_step_of().iy as int,
                                        ).sprites_inside@,
                                        forall|i: int|
                                            0 <= i < hits@.len() ==> (#[trigger] hits@[i]).wf(
                                                *textures,
                                            ),
                                        hits@ == pre_hits + spec_sprite_hits(
                                            *world,
                                            *textures,
                                            cam_pos,
                                            inv,
                                            fxo,
                                            list@.take(si as int),
                                        ),
                                    decreases list@.len() - si,
                                {
                                    let id: SpriteId = list[si];
                                    proof {
                                        assert(world.tiles.spec_tile(
                                            pre.spec_step_of().ix as int,
                                            pre.spec_step_of().iy as int,
                                        ).sprites_inside@[si as int] == id);
                                    }
                                    let sp_opt = world.get_sprite(id);
                                    let sp = match sp_opt {
                                        Some(s) => s,
                                        None => {
                                            proof {
                                                assert(false);
                                            }
                                            vstd::pervasive::unreached()
                                        },
                                    };
                                    let diff: Vec2x = sp.pos().sub(cam_pos);
                                    let rel: Vec2x = inv.mul_vec(diff);
                                    proof {
                                        lemma_mul_ok(
                                            fxo.raw,
                                            rel.y.raw,
                                            SCREEN_OFF_LIMIT as int,
                                            MAT_VEC_LIMIT as int,
                                        );
                                    }
                                    let num: Fx = rel.x.sub(fxo.mul(rel.y));
                                    let hx: Option<Fx> = ratio_in_unit(num.raw, sp.size());
                                    match hx {
                                        Some(u) => {
                                            hits.push(
                                                HitData {
                                                    dist: rel.y,
                                                    uv: u,
                                                    image: textures.textures[sp.texture.index()].id,
                                                    size: sp.size(),
                                                    y_pos: sp.y_pos,
                                                },
                                            );
                                        },
                                        None => {},
                                    }
                                    proof {
                                        assert(list@.take(si + 1).drop_last() =~= list@.take(
                                            si as int,
                                        ));
                                        assert(list@.take(si + 1).last() == id);
                                    }
                                    si = si + 1;
                                }
                                proof {
                                    assert(list@.take(list@.len() as int) =~= list@);
                                }
                                go = true;
                            },
                        }
                    },
                }
                proof {
                    crate::raycast::lemma_next_preserves_wf(pre);
                    assert(hits@ == pre_hits + spec_step_hits(
                        *world,
                        *textures,
                        cam_pos,
                        inv,
                        fxo,
                        time,
                        pre.spec_step_of(),
                    ).0);
                    assert(go == spec_step_hits(
                        *world,
                        *textures,
                        cam_pos,
                        inv,
                        fxo,
                        time,
                        pre.spec_step_of(),
                    ).1);
                }
                proof {
                    let hs = spec_step_hits(
                        *world,
                        *textures,
                        cam_pos,
                        inv,
                        fxo,
                        time,
                        pre.spec_step_of(),
                    ).0;
                    assert((pre_hits + hs) + spec_collect_from(
                        *world,
                        *textures,
                        cam_pos,
                        inv,
                        fxo,
                        time,
                        *&walker,
                    ) =~= pre_hits + (hs + spec_collect_from(
                        *world,
                        *textures,
                        cam_pos,
                        inv,
                        fxo,
                        time,
                        *&walker,
                    )));
                }
                if !go {
                    cont = false;
                }
            },
        }
    }
    hits
}

/// Where a hit lands among already-sorted hits: before every hit strictly
/// farther away, after every hit at the same distance, so insertion order
/// breaks ties.
pub open spec fn spec_insert_sorted(s: Seq<HitData>, h: HitData) -> Seq<HitData>
    decreases s.len(),
{
    if s.len() == 0 {
        seq![h]
    } else if h.dist.raw < s.last().dist.raw {
        spec_insert_sorted(s.drop_last(), h).push(s.last())
    } else {
        s.push(h)
    }
}

/// The hits sorted by ascending distance, stably.
pub open spec fn spec_sort_hits(s: Seq<HitData>) -> Seq<HitData>
    decreases s.len(),
{
    if s.len() == 0 {
        Seq::empty()
    } else {
        spec_insert_sorted(spec_sort_hits(s.drop_last()), s.last())
    }
}

/// Hits in ascending order of distance.
pub open spec fn spec_sorted_by_dist(s: Seq<HitData>) -> bool {
    forall|i: int, j: int|
        0 <= i <= j < s.len() ==> (#[trigger] s[i]).dist.raw <= (#[trigger] s[j]).dist.raw
}

/// Inserting a hit bounded by `b` into hits bounded by `b` stays bounded
/// by `b`.
proof fn lemma_insert_bound(s: Seq<HitData>, h: HitData, b: int)
    requires
        forall|i: int| 0 <= i < s.len() ==> (#[trigger] s[i]).dist.raw <= b,
        h.dist.raw <= b,
    ensures
        forall|k: int|
            0 <= k < spec_insert_sorted(s, h).len() ==> (#[trigger] spec_insert_sorted(
                s,
                h,
            )[k]).dist.raw <= b,
        spec_insert_sorted(s, h).len() == s.len() + 1,
    decreases s.len(),
{
    if s.len() != 0 && h.dist.raw < s.last().dist.raw {
        assert forall|i: int| 0 <= i < s.drop_last().len() implies (#[trigger] s.drop_last()[i]).dist.raw
            <= b by {
            assert(s.drop_last()[i] == s[i]);
        }
        lemma_insert_bound(s.drop_last(), h, b);
        assert forall|k: int|
            0 <= k < spec_insert_sorted(s, h).len() implies (#[trigger] spec_insert_sorted(
            s,
            h,
        )[k]).dist.raw <= b by {
            let inner = spec_insert_sorted(s.drop_last(), h);
            if k < inner.len() {
                assert(spec_insert_sorted(s, h)[k] == inner[k]);
            } else {
                assert(spec_insert_sorted(s, h)[k] == s.last());
            }
        }
    }
}

/// The law of the depth sorter's insertion step: inserting into a sorted
/// hit list keeps it sorted, and changes its contents by exactly the
/// inserted hit.
pub proof fn lemma_insert_sorted_props(s: Seq<HitData>, h: HitData)
    requires
        spec_sorted_by_dist(s),
    ensures
        spec_sorted_by_dist(spec_insert_sorted(s, h)),
        spec_insert_sorted(s, h).to_multiset() == s.to_multiset().insert(h),
        spec_insert_sorted(s, h).len() == s.len() + 1,
    decreases s.len(),
{
    broadcast use vstd::seq_lib::group_to_multiset_ensures;
    broadcast use vstd::multiset::group_multiset_axioms;

    if s.len() == 0 {
        assert(Seq::<HitData>::empty().push(h) =~= seq![h]);
        assert(seq![h].to_multiset() =~= s.to_multiset().insert(h));
    } else if h.dist.raw < s.last().dist.raw {
        lemma_insert_sorted_props(s.drop_last(), h);
        lemma_insert_bound(s.drop_last(), h, s.last().dist.raw as int);
        let inner = spec_insert_sorted(s.drop_last(), h);
        assert(spec_sorted_by_dist(inner.push(s.last()))) by {
            assert forall|i: int, j: int|
                0 <= i <= j < inner.push(s.last()).len() implies #[trigger] inner.push(
                s.last(),
            )[i].dist.raw <= #[trigger] inner.push(s.last())[j].dist.raw by {
                if j == inner.len() {
                    if i < inner.len() {
                        assert(inner[i].dist.raw <= s.last().dist.raw);
                    }
                }
            }
        }
        assert(s =~= s.drop_last().push(s.last()));
        assert(s.to_multiset() =~= s.drop_last().to_multiset().insert(s.last()));
        assert(inner.push(s.last()).to_multiset() =~= s.to_multiset().insert(h));
    } else {
        assert(spec_sorted_by_dist(s.push(h))) by {
            assert forall|i: int, j: int|
                0 <= i <= j < s.push(h).len() implies #[trigger] s.push(h)[i].dist.raw
                    <= #[trigger] s.push(h)[j].dist.raw by {
                if j == s.len() {
                    if i < s.len() {
                        assert(s[i].dist.raw <= s.last().dist.raw);
                    }
                }
            }
        }
    }
}

/// The law of the depth sorter: the sorted hit list is in ascending order
/// of distance and holds exactly the hits collected.
pub proof fn lemma_sort_hits_props(s: Seq<HitData>)
    ensures
        spec_sorted_by_dist(spec_sort_hits(s)),
        spec_sort_hits(s).to_multiset() == s.to_multiset(),
        spec_sort_hits(s).len() == s.len(),
    decreases s.len(),
{
    broadcast use vstd::seq_lib::group_to_multiset_ensures;
    broadcast use vstd::multiset::group_multiset_axioms;

    if s.len() == 0 {
        assert(spec_sort_hits(s).to_multiset() =~= s.to_multiset());
    } else {
        lemma_sort_hits_props(s.drop_last());
        lemma_insert_sorted_props(spec_sort_hits(s.drop_last()), s.last());
        assert(s =~= s.drop_last().push(s.last()));
        assert(s.to_multiset() =~= s.drop_last().to_multiset().insert(s.last()));
    }
}

/// Inserts a hit before every strictly farther hit of a sorted list.
fn insert_sorted(v: Vec<HitData>, h: HitData) -> (r: Vec<HitData>)
    ensures
        r@ == spec_insert_sorted(v@, h),
    decreases v@.len(),
{
    let mut v = v;
    if v.len() == 0 {
        v.push(h);
        proof {
            assert(v@ =~= seq![h]);
        }
        v
    } else {
        let last: HitData = v[v.len() - 1];
        if h.dist.raw < last.dist.raw {
            let popped: Option<HitData> = v.pop();
            let ghost dropped: Seq<HitData> = v@;
            let mut r: Vec<HitData> = insert_sorted(v, h);
            match popped {
                Some(p) => {
                    r.push(p);
                },
                None => {
                    proof {
                        assert(false);
                    }
                },
            }
            r
        } else {
            v.push(h);
            v
        }
    }
}

/// Sorts a column's hits by ascending distance; insertion order breaks
/// ties, so the sort is stable.
pub fn sort_hits(hits: Vec<HitData>) -> (r: Vec<HitData>)
    ensures
        r@ == spec_sort_hits(hits@),
{
    let mut out: Vec<HitData> = Vec::new();
    let mut i: usize = 0;
    while i < hits.len()
        invariant
            i <= hits@.len(),
            out@ == spec_sort_hits(hits@.take(i as int)),
        decreases hits@.len() - i,
    {
        let h: HitData = hits[i];
        out = insert_sorted(out, h);
        proof {
            assert(hits@.take(i + 1).drop_last() =~= hits@.take(i as int));
            assert(hits@.take(i + 1).last() == h);
        }
        i = i + 1;
    }
    proof {
        assert(hits@.take(hits@.len() as int) =~= hits@);
    }
    out
}

/// A column's normalized, aspect-corrected offset from screen center.
pub open spec fn spec_column_offset(x_abs: int, stride: int, aspect: Fx) -> int {
    let xr = (x_abs * 65536 * 65536) / (stride * 65536);
    ((32768 - xr) * 65536) / (aspect.raw as int)
}

/// The world-space ray direction of a column: the camera basis applied to
/// the column's screen offset and a forward component of one.
pub open spec fn spec_column_dir(cam_matrix: Mat2x, fxo: Fx) -> Vec2x {
    Vec2x {
        x: Fx {
            raw: (Mat2x::spec_row_apply(
                cam_matrix.m00,
                cam_matrix.m01,
                fxo,
                Fx { raw: 65536 },
            )) as i64,
        },
        y: Fx {
            raw: (Mat2x::spec_row_apply(
                cam_matrix.m10,
                cam_matrix.m11,
                fxo,
                Fx { raw: 65536 },
            )) as i64,
        },
    }
}

/// The buffer after compositing one hit: the apparent strip size is the
/// reciprocal of the hit's distance, its vertical placement follows the
/// hit's anchor and size, and its brightness falls off with the square of
/// the distance. Hits behind the camera, beyond the draw range, or too
/// small to cover a row draw nothing.
pub open spec fn spec_strip_size(dist: int) -> int {
    (65536int * 65536) / (1 + dist)
}

/// Where a hit's strip starts and ends on the screen (raw units,
/// normalized against the screen height): the strip is centered, scaled
/// by the reciprocal of the distance, and lifted by the hit's vertical
/// anchor.
pub open spec fn spec_strip_bounds(hit: HitData) -> (int, int) {
    let ds = spec_strip_size(hit.dist.raw as int);
    let half_strip = (ds * 32768) / 65536int;
    let anchor = (hit.y_pos.raw * (65536 - hit.size.raw)) / 65536int;
    let lift = (ds * anchor) / 65536int;
    let lift_top = (ds * ((anchor + hit.size.raw) as int)) / 65536int;
    (32768 - half_strip + lift, 32768 - half_strip + lift_top)
}

/// The brightness of a hit: inverse-square falloff with distance.
pub open spec fn spec_hit_dim(dist: int) -> int {
    (65536int * 65536) / (65536 + ((dist * dist) / 65536int) * 13107 / 65536int)
}

pub open spec fn spec_draw_one(
    buf: Seq<u32>,
    col: ImageColumn,
    textures: Textures,
    hit: HitData,
) -> Seq<u32> {
    if hit.dist.raw < 0 || hit.dist.raw > DIST_DRAW_LIMIT {
        buf
    } else {
        let image = textures.images@[hit.image as int];
        let y0 = Fx { raw: spec_strip_bounds(hit).0 as i64 };
        let y1 = Fx { raw: spec_strip_bounds(hit).1 as i64 };
        let ix0 = (hit.uv.raw * (image.width as int)) / 65536int;
        let image_x = if ix0 < image.width - 1 {
            ix0
        } else {
            image.width - 1
        };
        if y0.raw < y1.raw {
            crate::render::spec_draw_partial(
                buf,
                col,
                image,
                image_x,
                Fx { raw: 0 },
                Fx { raw: 65536 },
                y0,
                y1,
                Fx { raw: spec_hit_dim(hit.dist.raw as int) as i64 },
            )
        } else {
            buf
        }
    }
}

/// The projection law: a wall hit at distance `d` (a full-size,
/// center-anchored strip) projects to a strip whose size is exactly the
/// fixed-point reciprocal of `d`, the distance being padded by one raw
/// unit so that zero distance stays finite.
pub proof fn lemma_wall_strip_size(hit: HitData)
    requires
        hit.size.raw == 65536,
        hit.y_pos.raw == 32768,
        0 <= hit.dist.raw,
    ensures
        spec_strip_bounds(hit).1 - spec_strip_bounds(hit).0 == spec_strip_size(
            hit.dist.raw as int,
        ),
{
    let ds = spec_strip_size(hit.dist.raw as int);
    vstd::arithmetic::div_mod::lemma_div_pos_is_pos(65536int * 65536, 1 + hit.dist.raw);
    assert((hit.y_pos.raw * (65536 - hit.size.raw)) == 0) by (nonlinear_arith)
        requires
            hit.size.raw == 65536,
    ;
    assert(0int / 65536int == 0);
    assert((ds * 0) == 0) by (nonlinear_arith);
    vstd::arithmetic::div_mod::lemma_div_by_multiple(ds, 65536);
    assert((ds * 65536) / 65536int == ds);
}

/// A world of bare floor tiles: no out-of-plane graphics anywhere and no
/// sprite registered on any cell.
pub open spec fn spec_floor_only(world: World) -> bool {
    forall|x: int, y: int|
        world.tiles.spec_in_bounds(x, y) ==> (#[trigger] world.tiles.spec_tile(
            x,
            y,
        )).spec_graphics() is None && world.tiles.spec_tile(x, y).sprites_inside@.len() == 0
}

/// In a world of bare floor tiles with no sprites, a cast collects no
/// hits at all.
pub proof fn lemma_floor_world_no_hits(
    world: World,
    textures: Textures,
    cam_pos: Vec2x,
    inv: Mat2x,
    fxo: Fx,
    time: Fx,
    walker: RayWalker,
)
    requires
        walker.wf(),
        spec_floor_only(world),
    ensures
        spec_collect_from(world, textures, cam_pos, inv, fxo, time, walker) == Seq::<
            HitData,
        >::empty(),
    decreases walker.measure(),
{
    if !walker.spec_done() {
        crate::raycast::lemma_next_preserves_wf(walker);
        lemma_floor_world_no_hits(
            world,
            textures,
            cam_pos,
            inv,
            fxo,
            time,
            walker.spec_next_state(),
        );
        let step = walker.spec_step_of();
        if world.tiles.spec_in_bounds(step.ix as int, step.iy as int) {
            assert(world.tiles.spec_tile(
                step.ix as int,
                step.iy as int,
            ).sprites_inside@ =~= Seq::<SpriteId>::empty());
        }
        assert(Seq::<HitData>::empty() + Seq::<HitData>::empty() =~= Seq::<HitData>::empty());
    }
}

/// The traversal a column's ray starts from is well formed.
pub proof fn lemma_column_cast_wf(
    screen_x: int,
    screen_w: int,
    cam_pos: Vec2x,
    cam_matrix: Mat2x,
    aspect: Fx,
)
    requires
        0 <= screen_x < screen_w <= 0x8000,
        iabs(cam_pos.x.raw as int) <= CAM_POS_LIMIT,
        iabs(cam_pos.y.raw as int) <= CAM_POS_LIMIT,
        cam_matrix.wf(),
        64 <= aspect.raw <= 0x100_0000,
    ensures
        ({
            let fxo = Fx { raw: spec_column_offset(screen_x, screen_w, aspect) as i64 };
            let dir = spec_column_dir(cam_matrix, fxo);
            &&& iabs(fxo.raw as int) <= SCREEN_OFF_LIMIT
            &&& spec_walker_init(
                Raycast {
                    x: cam_pos.x,
                    y: cam_pos.y,
                    dx: dir.x,
                    dy: dir.y,
                    max_distance: Fx { raw: 1966080 },
                },
            ).wf()
        }),
{
    let xr = (screen_x * 65536 * 65536) / (screen_w * 65536);
    assert(screen_x * 65536 * 65536 >= 0 && screen_w * 65536 >= 1) by (nonlinear_arith)
        requires
            0 <= screen_x < screen_w,
    ;
    vstd::arithmetic::div_mod::lemma_div_pos_is_pos(screen_x * 65536 * 65536, screen_w * 65536);
    assert(screen_x * 65536 * 65536 <= 65536 * (screen_w * 65536)) by (nonlinear_arith)
        requires
            screen_x < screen_w,
    ;
    lemma_frac_bound(screen_x * 65536 * 65536, screen_w * 65536, 65536int);
    let fxo_raw = ((32768 - xr) * 65536) / (aspect.raw as int);
    assert(((32768 - xr) * 65536) <= 32768int * 65536 && ((32768 - xr) * 65536) >= -(32768int
        * 65536)) by (nonlinear_arith)
        requires
            -32768 <= 32768 - xr <= 32768,
    ;
    lemma_abs_frac_bound((32768 - xr) * 65536, aspect.raw as int, 32768int * 65536, 64);
    let fxo = Fx { raw: fxo_raw as i64 };
    crate::fx::lemma_mul_abs_bound(
        cam_matrix.m00.raw as int,
        fxo.raw as int,
        crate::mat2::MAT_LIMIT as int,
        SCREEN_OFF_LIMIT as int,
    );
    crate::fx::lemma_mul_abs_bound(
        cam_matrix.m10.raw as int,
        fxo.raw as int,
        crate::mat2::MAT_LIMIT as int,
        SCREEN_OFF_LIMIT as int,
    );
    crate::fx::lemma_mul_abs_bound(
        cam_matrix.m01.raw as int,
        65536,
        crate::mat2::MAT_LIMIT as int,
        65536,
    );
    crate::fx::lemma_mul_abs_bound(
        cam_matrix.m11.raw as int,
        65536,
        crate::mat2::MAT_LIMIT as int,
        65536,
    );
    crate::fx::lemma_div_abs_shrink(
        cam_matrix.m00.raw * fxo.raw,
        (crate::mat2::MAT_LIMIT as int) * (SCREEN_OFF_LIMIT as int),
        65536int,
    );
    crate::fx::lemma_div_abs_shrink(
        cam_matrix.m10.raw * fxo.raw,
        (crate::mat2::MAT_LIMIT as int) * (SCREEN_OFF_LIMIT as int),
        65536int,
    );
    crate::fx::lemma_div_abs_shrink(
        cam_matrix.m01.raw * 65536,
        (crate::mat2::MAT_LIMIT as int) * 65536,
        65536int,
    );
    crate::fx::lemma_div_abs_shrink(
        cam_matrix.m11.raw * 65536,
        (crate::mat2::MAT_LIMIT as int) * 65536,
        65536int,
    );
    assert((crate::mat2::MAT_LIMIT as int) * (SCREEN_OFF_LIMIT as int) / 65536int + 1
        <= 0x4000_0000) by (nonlinear_arith);
    assert((crate::mat2::MAT_LIMIT as int) * 65536 / 65536int + 1 <= 0x10_0000)
        by (nonlinear_arith);
    crate::raycast::lemma_walker_init_wf(
        Raycast {
            x: cam_pos.x,
            y: cam_pos.y,
            dx: spec_column_dir(cam_matrix, fxo).x,
            dy: spec_column_dir(cam_matrix, fxo).y,
            max_distance: Fx { raw: 1966080 },
        },
    );
}

/// In a floor-only world a column's render leaves its buffer exactly as
/// it was: the hit list is empty and compositing nothing writes nothing.
pub proof fn lemma_floor_column_unchanged(
    buf: Seq<u32>,
    col: ImageColumn,
    screen_x: int,
    screen_w: int,
    world: World,
    textures: Textures,
    cam_pos: Vec2x,
    cam_matrix: Mat2x,
    aspect: Fx,
    time: Fx,
)
    requires
        spec_floor_only(world),
        0 <= screen_x < screen_w <= 0x8000,
        iabs(cam_pos.x.raw as int) <= CAM_POS_LIMIT,
        iabs(cam_pos.y.raw as int) <= CAM_POS_LIMIT,
        cam_matrix.wf(),
        64 <= aspect.raw <= 0x100_0000,
    ensures
        spec_render_column(
            buf,
            col,
            screen_x,
            screen_w,
            world,
            textures,
            cam_pos,
            cam_matrix,
            aspect,
            time,
        ) == buf,
{
    lemma_column_cast_wf(screen_x, screen_w, cam_pos, cam_matrix, aspect);
    let fxo = Fx { raw: spec_column_offset(screen_x, screen_w, aspect) as i64 };
    let inv = crate::mat2::spec_inverse_mat2(cam_matrix);
    let dir = spec_column_dir(cam_matrix, fxo);
    let cast = Raycast {
        x: cam_pos.x,
        y: cam_pos.y,
        dx: dir.x,
        dy: dir.y,
        max_distance: Fx { raw: 1966080 },
    };
    lemma_floor_world_no_hits(world, textures, cam_pos, inv, fxo, time, spec_walker_init(cast));
    assert(spec_collect_hits(world, textures, cam_pos, inv, fxo, time, dir) == Seq::<
        HitData,
    >::empty());
    assert(spec_sort_hits(Seq::<HitData>::empty()) == Seq::<HitData>::empty());
    assert(spec_draw_hits(buf, col, textures, Seq::<HitData>::empty()) == buf);
}

/// In a floor-only world the first `k` columns of a work item leave the
/// buffer unchanged.
proof fn lemma_floor_run_cols(
    buf: Seq<u32>,
    item: WorkItem,
    k: int,
    world: World,
    textures: Textures,
    cam_pos: Vec2x,
    cam_matrix: Mat2x,
    width: int,
    height: int,
    aspect: Fx,
    time: Fx,
)
    requires
        spec_floor_only(world),
        0 <= k <= item.width,
        item.x_offset + item.width <= width <= 0x8000,
        1 <= height <= 0x8000,
        iabs(cam_pos.x.raw as int) <= CAM_POS_LIMIT,
        iabs(cam_pos.y.raw as int) <= CAM_POS_LIMIT,
        cam_matrix.wf(),
        64 <= aspect.raw <= 0x100_0000,
    ensures
        spec_run_cols(
            buf,
            item,
            k,
            world,
            textures,
            cam_pos,
            cam_matrix,
            width,
            height,
            aspect,
            time,
        ) == buf,
    decreases k,
{
    if k > 0 {
        lemma_floor_run_cols(
            buf,
            item,
            k - 1,
            world,
            textures,
            cam_pos,
            cam_matrix,
            width,
            height,
            aspect,
            time,
        );
        lemma_floor_column_unchanged(
            buf,
            ImageColumn {
                x: (item.x_offset + k - 1) as usize,
                stride: width as usize,
                height: height as usize,
            },
            item.x_offset + k - 1,
            width,
            world,
            textures,
            cam_pos,
            cam_matrix,
            aspect,
            time,
        );
    }
}

/// In a floor-only world a whole work item writes no pixel of its buffer
/// region: on return the destination bytes are exactly as before.
pub proof fn lemma_floor_world_draws_nothing(
    buf: Seq<u32>,
    item: WorkItem,
    world: World,
    textures: Textures,
    cam_pos: Vec2x,
    cam_matrix: Mat2x,
    width: int,
    height: int,
    aspect: Fx,
    time: Fx,
)
    requires
        spec_floor_only(world),
        item.x_offset + item.width <= width <= 0x8000,
        1 <= height <= 0x8000,
        iabs(cam_pos.x.raw as int) <= CAM_POS_LIMIT,
        iabs(cam_pos.y.raw as int) <= CAM_POS_LIMIT,
        cam_matrix.wf(),
        64 <= aspect.raw <= 0x100_0000,
    ensures
        spec_run_work(
            buf,
            item,
            world,
            textures,
            cam_pos,
            cam_matrix,
            width,
            height,
            aspect,
            time,
        ) == buf,
{
    lemma_floor_run_cols(
        buf,
        item,
        item.width as int,
        world,
        textures,
        cam_pos,
        cam_matrix,
        width,
        height,
        aspect,
        time,
    );
}

/// In a floor-only world a whole frame's worth of work items writes no
/// pixel: rendering the frame leaves the buffer exactly as it was,
/// background only.
pub proof fn lemma_floor_world_frame(
    buf: Seq<u32>,
    world: World,
    textures: Textures,
    cam_pos: Vec2x,
    cam_matrix: Mat2x,
    width: int,
    height: int,
    aspect: Fx,
    time: Fx,
)
    requires
        spec_floor_only(world),
        0 <= width <= 0x8000,
        1 <= height <= 0x8000,
        iabs(cam_pos.x.raw as int) <= CAM_POS_LIMIT,
        iabs(cam_pos.y.raw as int) <= CAM_POS_LIMIT,
        cam_matrix.wf(),
        64 <= aspect.raw <= 0x100_0000,
    ensures
        spec_run_items(
            buf,
            spec_partition(width),
            world,
            textures,
            cam_pos,
            cam_matrix,
            width,
            height,
            aspect,
            time,
        ) == buf,
{
    lemma_partition_in_frame(width);
    lemma_floor_items(
        buf,
        spec_partition(width),
        world,
        textures,
        cam_pos,
        cam_matrix,
        width,
        height,
        aspect,
        time,
    );
}

/// In a floor-only world any sequence of in-frame work items leaves the
/// buffer unchanged.
proof fn lemma_floor_items(
    buf: Seq<u32>,
    items: Seq<WorkItem>,
    world: World,
    textures: Textures,
    cam_pos: Vec2x,
    cam_matrix: Mat2x,
    width: int,
    height: int,
    aspect: Fx,
    time: Fx,
)
    requires
        spec_floor_only(world),
        0 <= width <= 0x8000,
        1 <= height <= 0x8000,
        forall|j: int|
            0 <= j < items.len() ==> (#[trigger] items[j]).x_offset + items[j].width <= width,
        iabs(cam_pos.x.raw as int) <= CAM_POS_LIMIT,
        iabs(cam_pos.y.raw as int) <= CAM_POS_LIMIT,
        cam_matrix.wf(),
        64 <= aspect.raw <= 0x100_0000,
    ensures
        spec_run_items(
            buf,
            items,
            world,
            textures,
            cam_pos,
            cam_matrix,
            width,
            height,
            aspect,
            time,
        ) == buf,
    decreases items.len(),
{
    if items.len() > 0 {
        lemma_floor_world_draws_nothing(
            buf,
            items.last(),
            world,
            textures,
            cam_pos,
            cam_matrix,
            width,
            height,
            aspect,
            time,
        );
        lemma_floor_items(
            buf,
            items.drop_last(),
            world,
            textures,
            cam_pos,
            cam_matrix,
            width,
            height,
            aspect,
            time,
        );
    }
}

/// The buffer after compositing a sorted hit list back to front: the
/// farthest hit is drawn first, the nearest last, so near geometry
/// overwrites far geometry.
pub open spec fn spec_draw_hits(
    buf: Seq<u32>,
    col: ImageColumn,
    textures: Textures,
    hits: Seq<HitData>,
) -> Seq<u32>
    decreases hits.len(),
{
    if hits.len() == 0 {
        buf
    } else {
        spec_draw_hits(
            spec_draw_one(buf, col, textures, hits.last()),
            col,
            textures,
            hits.drop_last(),
        )
    }
}

/// One whole column of the frame: collect the ray's hits, sort them by
/// distance, and composite them back to front over the column's existing
/// contents.
pub open spec fn spec_render_column(
    buf: Seq<u32>,
    col: ImageColumn,
    screen_x: int,
    screen_w: int,
    world: World,
    textures: Textures,
    cam_pos: Vec2x,
    cam_matrix: Mat2x,
    aspect: Fx,
    time: Fx,
) -> Seq<u32> {
    let fxo = Fx { raw: spec_column_offset(screen_x, screen_w, aspect) as i64 };
    let inv = crate::mat2::spec_inverse_mat2(cam_matrix);
    let dir = spec_column_dir(cam_matrix, fxo);
    let hits = spec_collect_hits(world, textures, cam_pos, inv, fxo, time, dir);
    spec_draw_hits(buf, col, textures, spec_sort_hits(hits))
}

/// Composites one hit into the column.
fn draw_one(buffer: &mut Vec<u32>, col: ImageColumn, textures: &Textures, hit: HitData)
    requires
        col.wf(),
        textures.wf(),
        hit.wf(*textures),
        old(buffer)@.len() == col.stride * col.height,
    ensures
        final(buffer)@ == spec_draw_one(old(buffer)@, col, *textures, hit),
        final(buffer)@.len() == old(buffer)@.len(),
        crate::render::agree_outside_column(
            final(buffer)@,
            old(buffer)@,
            col.x as int,
            col.stride as int,
        ),
{
    if hit.dist.raw < 0 || hit.dist.raw > DIST_DRAW_LIMIT {
        return ;
    }
    let image: &crate::texture::VerticalImage = &textures.images[hit.image];
    proof {
        lemma_div_shrinks(65536int * 65536, 1 + hit.dist.raw);
        lemma_mul_ok(hit.dist.raw, hit.dist.raw, DIST_DRAW_LIMIT as int, DIST_DRAW_LIMIT as int);
    }
    let one: Fx = Fx { raw: 65536 };
    let ds: Fx = one.div(Fx { raw: 1 + hit.dist.raw });
    proof {
        lemma_mul_ok(ds.raw, 32768, 0x1_0000_0000, 32768);
        lemma_mul_ok(hit.y_pos.raw, (65536 - hit.size.raw) as i64, 65536, SPRITE_SIZE_LIMIT as int);
    }
    let half_strip: Fx = ds.mul(Fx { raw: 32768 });
    let anchor: Fx = hit.y_pos.mul(one.sub(hit.size));
    proof {
        lemma_mul_ok(ds.raw, anchor.raw, 0x1_0000_0000, SPRITE_SIZE_LIMIT as int + 65536);
        lemma_mul_ok(
            ds.raw,
            (anchor.raw + hit.size.raw) as i64,
            0x1_0000_0000,
            2 * SPRITE_SIZE_LIMIT as int + 65536,
        );
    }
    let lift: Fx = ds.mul(anchor);
    let lift_top: Fx = ds.mul(anchor.add(hit.size));
    let y0: Fx = Fx { raw: 32768 - half_strip.raw + lift.raw };
    let y1: Fx = Fx { raw: 32768 - half_strip.raw + lift_top.raw };
    proof {
        lemma_mul_ok(hit.uv.raw, ((image.width as i64) * 65536) as i64, 65536, 0x8000_0000);
    }
    let ixf: Fx = hit.uv.mul(Fx::from_int(image.width as i32));
    let ix0: i64 = ixf.floor_int();
    proof {
        assert((hit.uv.raw * ((image.width as i64) * 65536)) / 65536int == hit.uv.raw * (
        image.width as int)) by (nonlinear_arith)
            requires
                image.width <= 0x8000,
        ;
        assert(ix0 >= 0) by {
            assert(hit.uv.raw * (image.width as int) >= 0) by (nonlinear_arith)
                requires
                    hit.uv.raw >= 0,
                    image.width >= 1,
            ;
            vstd::arithmetic::div_mod::lemma_div_pos_is_pos(
                hit.uv.raw * (image.width as int),
                65536int,
            );
        }
    }
    let wm1: i64 = (image.width as i64) - 1;
    let image_x: i64 = if ix0 < wm1 {
        ix0
    } else {
        wm1
    };
    proof {
        assert(hit.dist.raw * hit.dist.raw >= 0) by (nonlinear_arith);
        vstd::arithmetic::div_mod::lemma_div_pos_is_pos(hit.dist.raw * hit.dist.raw, 65536int);
    }
    let dist2: Fx = hit.dist.mul(hit.dist);
    proof {
        assert(iabs(dist2.raw as int) <= 0x2000_0000_0000_0000);
        lemma_mul_ok(dist2.raw, 13107, 0x2000_0000_0000_0000, 13107);
        assert(dist2.raw * 13107 >= 0) by (nonlinear_arith)
            requires
                dist2.raw >= 0,
        ;
        vstd::arithmetic::div_mod::lemma_div_pos_is_pos(dist2.raw * 13107, 65536int);
    }
    let falloff: Fx = dist2.mul(Fx { raw: 13107 });
    proof {
        lemma_div_shrinks(65536int * 65536, (65536 + falloff.raw) as int);
        vstd::arithmetic::div_mod::lemma_div_pos_is_pos(
            65536int * 65536,
            (65536 + falloff.raw) as int,
        );
        lemma_frac_bound(65536int * 65536, (65536 + falloff.raw) as int, 65536int);
    }
    let dim: Fx = one.div(Fx { raw: 65536 + falloff.raw });
    if y0.raw < y1.raw {
        col.draw_partial_image(
            buffer,
            image,
            image_x as usize,
            Fx { raw: 0 },
            Fx { raw: 65536 },
            y0,
            y1,
            dim,
        );
    }
}

/// Composites a sorted hit list back to front into the column.
fn draw_hits(buffer: &mut Vec<u32>, col: ImageColumn, textures: &Textures, hits: &Vec<HitData>)
    requires
        col.wf(),
        textures.wf(),
        forall|i: int| 0 <= i < hits@.len() ==> (#[trigger] hits@[i]).wf(*textures),
        old(buffer)@.len() == col.stride * col.height,
    ensures
        final(buffer)@ == spec_draw_hits(old(buffer)@, col, *textures, hits@),
        final(buffer)@.len() == old(buffer)@.len(),
        crate::render::agree_outside_column(
            final(buffer)@,
            old(buffer)@,
            col.x as int,
            col.stride as int,
        ),
{
    let mut i: usize = hits.len();
    proof {
        assert(hits@.take(hits@.len() as int) =~= hits@);
    }
    while i > 0
        invariant
            col.wf(),
            textures.wf(),
            forall|k: int| 0 <= k < hits@.len() ==> (#[trigger] hits@[k]).wf(*textures),
            i <= hits@.len(),
            buffer@.len() == col.stride * col.height,
            spec_draw_hits(buffer@, col, *textures, hits@.take(i as int)) == spec_draw_hits(
                old(buffer)@,
                col,
                *textures,
                hits@,
            ),
            crate::render::agree_outside_column(
                buffer@,
                old(buffer)@,
                col.x as int,
                col.stride as int,
            ),
        decreases i,
    {
        let h: HitData = hits[i - 1];
        proof {
            assert(hits@.take(i as int).last() == h);
            assert(hits@.take(i as int).drop_last() =~= hits@.take(i - 1));
        }
        let ghost mid: Seq<u32> = buffer@;
        draw_one(buffer, col, textures, h);
        proof {
            crate::render::lemma_agree_outside_column_trans(
                buffer@,
                mid,
                old(buffer)@,
                col.x as int,
                col.stride as int,
            );
        }
        i = i - 1;
    }
    proof {
        assert(hits@.take(0) =~= Seq::<HitData>::empty());
    }
}

/// Renders one whole column of the frame over its existing contents.
pub fn render_column(
    buffer: &mut Vec<u32>,
    col: ImageColumn,
    screen_x: usize,
    screen_width: usize,
    world: &World,
    textures: &Textures,
    cam_pos: Vec2x,
    cam_matrix: Mat2x,
    aspect: Fx,
    time: Fx,
)
    requires
        col.wf(),
        screen_x < screen_width <= 0x8000,
        scene_wf(*world, *textures, cam_pos, cam_matrix, time),
        64 <= aspect.raw <= 0x100_0000,
        old(buffer)@.len() == col.stride * col.height,
    ensures
        final(buffer)@ == spec_render_column(
            old(buffer)@,
            col,
            screen_x as int,
            screen_width as int,
            *world,
            *textures,
            cam_pos,
            cam_matrix,
            aspect,
            time,
        ),
        final(buffer)@.len() == old(buffer)@.len(),
        crate::render::agree_outside_column(
            final(buffer)@,
            old(buffer)@,
            col.x as int,
            col.stride as int,
        ),
{
    let xr: Fx = Fx::from_int(screen_x as i32).div(Fx::from_int(screen_width as i32));
    proof {
        assert((screen_x as int) * 65536 * 65536 == (((screen_x as i32) as i64) * 65536) * 65536)
            by (nonlinear_arith)
            requires
                screen_x < 0x8000,
        ;
        lemma_div_shrinks((screen_x as int) * 65536 * 65536, (screen_width as int) * 65536);
        assert((screen_x as int) * 65536 * 65536 <= 0x8000_0000_0000_0000) by (nonlinear_arith)
            requires
                screen_x < 0x8000,
        ;
        assert(((screen_x as int) * 65536 * 65536) / ((screen_width as int) * 65536) <= 65536) by {
            assert((screen_x as int) * 65536 * 65536 <= 65536 * ((screen_width as int) * 65536))
                by (nonlinear_arith)
                requires
                    screen_x < screen_width,
            ;
            lemma_frac_bound(
                (screen_x as int) * 65536 * 65536,
                (screen_width as int) * 65536,
                65536int,
            );
        }
    }
    proof {
        vstd::arithmetic::div_mod::lemma_div_pos_is_pos(
            (screen_x as int) * 65536 * 65536,
            (screen_width as int) * 65536,
        );
        assert(((32768 - xr.raw) * 65536) <= 32768int * 65536 && ((32768 - xr.raw) * 65536) >= -(
        32768int * 65536)) by (nonlinear_arith)
            requires
                -32768 <= 32768 - xr.raw <= 32768,
        ;
        lemma_abs_frac_bound((32768 - xr.raw) * 65536, aspect.raw as int, 32768int * 65536, 64);
    }
    let fxo: Fx = Fx { raw: 32768 }.sub(xr).div(aspect);
    let one: Fx = Fx { raw: 65536 };
    proof {
        lemma_mul_ok(cam_matrix.m00.raw, fxo.raw, crate::mat2::MAT_LIMIT as int, SCREEN_OFF_LIMIT as int);
        lemma_mul_ok(cam_matrix.m01.raw, 65536, crate::mat2::MAT_LIMIT as int, 65536);
        lemma_mul_ok(cam_matrix.m10.raw, fxo.raw, crate::mat2::MAT_LIMIT as int, SCREEN_OFF_LIMIT as int);
        lemma_mul_ok(cam_matrix.m11.raw, 65536, crate::mat2::MAT_LIMIT as int, 65536);
    }
    let dir: Vec2x = cam_matrix.mul_vec(Vec2x { x: fxo, y: one });
    let inv: Mat2x = inverse_mat2(cam_matrix);
    let hits: Vec<HitData> = collect_hits(world, textures, cam_pos, inv, fxo, time, dir);
    let sorted: Vec<HitData> = sort_hits(hits);
    proof {
        lemma_sort_hits_props(hits@);
        assert forall|i: int| 0 <= i < sorted@.len() implies (#[trigger] sorted@[i]).wf(
            *textures,
        ) by {
            broadcast use vstd::seq_lib::group_to_multiset_ensures;
            broadcast use vstd::multiset::group_multiset_axioms;

            assert(sorted@.to_multiset().count(sorted@[i]) > 0);
            assert(hits@.contains(sorted@[i]));
        }
    }
    draw_hits(buffer, col, textures, &sorted);
}

/// A contiguous column range of the frame: work items' ranges are
/// pairwise disjoint and jointly cover the frame exactly once.
#[derive(Clone, Copy, PartialEq, Eq, Structural, Debug)]
pub struct WorkItem {
    pub x_offset: usize,
    pub width: usize,
}

/// Whether a work item's range holds column `c`.
pub open spec fn spec_covers(item: WorkItem, c: int) -> bool {
    item.x_offset <= c < item.x_offset + item.width
}

/// The mutably shared scheduler state: the pending work items and the
/// count of items currently being worked on. The caller guards it with
/// its lock; every state change goes through these verified operations.
pub struct WorkQueue {
    pub items: Vec<WorkItem>,
    pub busy: u32,
}

impl WorkQueue {
    /// An empty, idle queue.
    pub fn new() -> (r: WorkQueue)
        ensures
            r.items@.len() == 0,
            r.busy == 0,
    {
        WorkQueue { items: Vec::new(), busy: 0 }
    }

    /// Enqueues a work item.
    pub fn push(&mut self, item: WorkItem)
        ensures
            final(self).items@ == old(self).items@.push(item),
            final(self).busy == old(self).busy,
    {
        self.items.push(item);
    }

    /// Pops the most recently pushed pending item, if any.
    pub fn pop(&mut self) -> (r: Option<WorkItem>)
        ensures
            old(self).items@.len() > 0 ==> r == Some(old(self).items@.last())
                && final(self).items@ == old(self).items@.drop_last(),
            old(self).items@.len() == 0 ==> r is None && final(self).items@ == old(
                self,
            ).items@,
            final(self).busy == old(self).busy,
    {
        self.items.pop()
    }

    /// Records that a worker took an item.
    pub fn mark_busy(&mut self)
        requires
            old(self).busy < u32::MAX,
        ensures
            final(self).busy == old(self).busy + 1,
            final(self).items == old(self).items,
    {
        self.busy = self.busy + 1;
    }

    /// Records that a worker finished an item.
    pub fn mark_done(&mut self)
        requires
            old(self).busy > 0,
        ensures
            final(self).busy == old(self).busy - 1,
            final(self).items == old(self).items,
    {
        self.busy = self.busy - 1;
    }

    /// How many items are pending.
    pub fn len(&self) -> (r: usize)
        ensures
            r == self.items@.len(),
    {
        self.items.len()
    }

    /// How many items are being worked on.
    pub fn busy_count(&self) -> (r: u32)
        ensures
            r == self.busy,
    {
        self.busy
    }
}

/// The frame's columns split into chunks of at most `SPLIT_SIZE` columns:
/// chunk `i` starts at column `i * SPLIT_SIZE`.
pub open spec fn spec_partition(width: int) -> Seq<WorkItem> {
    Seq::new(
        ((width + 63) / 64) as nat,
        |i: int|
            WorkItem {
                x_offset: (i * 64) as usize,
                width: (if width - i * 64 >= 64 {
                    64int
                } else {
                    width - i * 64
                }) as usize,
            },
    )
}

/// The disjoint-cover law of the partition: every column of the frame
/// belongs to exactly one work item, and every item stays within the
/// frame with at most `SPLIT_SIZE` columns.
pub proof fn lemma_partition_covers(width: int, c: int)
    requires
        0 <= c < width <= 0x8000,
    ensures
        0 <= c / 64 < spec_partition(width).len(),
        spec_covers(spec_partition(width)[c / 64], c),
        forall|j: int|
            0 <= j < spec_partition(width).len() && j != c / 64 ==> !spec_covers(
                #[trigger] spec_partition(width)[j],
                c,
            ),
{
    vstd::arithmetic::div_mod::lemma_fundamental_div_mod(c, 64);
    vstd::arithmetic::div_mod::lemma_div_is_ordered(c, width - 1, 64);
    assert((c / 64) * 64 <= c < (c / 64) * 64 + 64);
    assert(c / 64 < (width + 63) / 64) by {
        vstd::arithmetic::div_mod::lemma_div_is_ordered(c + 64, width + 63, 64);
        assert((c + 64) / 64 == c / 64 + 1) by {
            vstd::arithmetic::div_mod::lemma_div_plus_one(c, 64);
        };
    }
    assert forall|j: int|
        0 <= j < spec_partition(width).len() && j != c / 64 implies !spec_covers(
        #[trigger] spec_partition(width)[j],
        c,
    ) by {
        if j < c / 64 {
            assert(j * 64 + 64 <= (c / 64) * 64) by (nonlinear_arith)
                requires
                    j + 1 <= c / 64,
            ;
        } else {
            assert((c / 64) * 64 + 64 <= j * 64) by (nonlinear_arith)
                requires
                    c / 64 + 1 <= j,
            ;
        }
    }
}

/// Every item of the partition lies within the frame.
pub proof fn lemma_partition_in_frame(width: int)
    requires
        0 <= width <= 0x8000,
    ensures
        forall|j: int|
            0 <= j < spec_partition(width).len() ==> (#[trigger] spec_partition(
                width,
            )[j]).x_offset + spec_partition(width)[j].width <= width && spec_partition(
                width,
            )[j].width >= 1 && spec_partition(width)[j].width <= 64,
{
    assert forall|j: int| 0 <= j < spec_partition(width).len() implies (#[trigger] spec_partition(
        width,
    )[j]).x_offset + spec_partition(width)[j].width <= width && spec_partition(width)[j].width >= 1
        && spec_partition(width)[j].width <= 64 by {
        assert(j < (width + 63) / 64);
        assert(j * 64 + 64 <= ((width + 63) / 64) * 64) by (nonlinear_arith)
            requires
                j + 1 <= (width + 63) / 64,
        ;
        vstd::arithmetic::div_mod::lemma_fundamental_div_mod(width + 63, 64);
        assert(((width + 63) / 64) * 64 <= width + 63);
        assert(j * 64 <= width - 1);
    }
}

/// Splits the frame's columns into chunks of at most `SPLIT_SIZE`.
pub fn partition_columns(width: usize) -> (r: Vec<WorkItem>)
    requires
        width <= 0x8000,
    ensures
        r@ == spec_partition(width as int),
{
    let mut r: Vec<WorkItem> = Vec::new();
    let mut off: usize = 0;
    while off < width
        invariant
            width <= 0x8000,
            off <= width + 63,
            off % 64 == 0,
            r@.len() == off / 64,
            off < width ==> off / 64 <= spec_partition(width as int).len(),
            forall|i: int|
                0 <= i < r@.len() ==> #[trigger] r@[i] == spec_partition(width as int)[i],
            off >= width ==> r@.len() == spec_partition(width as int).len(),
        decreases width + 64 - off,
    {
        let w: usize = if width - off >= 64 {
            64
        } else {
            width - off
        };
        proof {
            vstd::arithmetic::div_mod::lemma_fundamental_div_mod(off as int, 64);
            vstd::arithmetic::div_mod::lemma_div_plus_one(off as int, 64);
            assert((off / 64) * 64 == off);
            assert((off + 64) / 64 == off / 64 + 1);
            vstd::arithmetic::div_mod::lemma_fundamental_div_mod((width + 63) as int, 64);
            if off + 64 >= width {
                vstd::arithmetic::div_mod::lemma_div_is_ordered(
                    (width + 63) as int,
                    off + 64 + 63,
                    64,
                );
                assert((off + 64 + 63) / 64 == off / 64 + 1) by {
                    vstd::arithmetic::div_mod::lemma_div_plus_one((off + 63) as int, 64);
                    assert((off + 63) / 64 == off / 64) by {
                        vstd::arithmetic::div_mod::lemma_fundamental_div_mod_converse(
                            (off + 63) as int,
                            64,
                            off as int / 64,
                            63,
                        );
                    }
                }
            }
            vstd::arithmetic::div_mod::lemma_div_is_ordered((off + 64) as int, (width + 63) as int, 64);
            vstd::arithmetic::div_mod::lemma_div_is_ordered(off as int, (width + 63) as int, 64);
        }
        r.push(WorkItem { x_offset: off, width: w });
        off = off + 64;
    }
    proof {
        if width == 0 {
            assert(spec_partition(width as int).len() == 0);
        }
        assert(r@ =~= spec_partition(width as int));
    }
    r
}

/// The first `k` columns of a work item rendered left to right.
pub open spec fn spec_run_cols(
    buf: Seq<u32>,
    item: WorkItem,
    k: int,
    world: World,
    textures: Textures,
    cam_pos: Vec2x,
    cam_matrix: Mat2x,
    width: int,
    height: int,
    aspect: Fx,
    time: Fx,
) -> Seq<u32>
    decreases k,
{
    if k <= 0 {
        buf
    } else {
        spec_render_column(
            spec_run_cols(
                buf,
                item,
                k - 1,
                world,
                textures,
                cam_pos,
                cam_matrix,
                width,
                height,
                aspect,
                time,
            ),
            ImageColumn {
                x: (item.x_offset + k - 1) as usize,
                stride: width as usize,
                height: height as usize,
            },
            item.x_offset + k - 1,
            width,
            world,
            textures,
            cam_pos,
            cam_matrix,
            aspect,
            time,
        )
    }
}

/// The buffer after rendering every column of one work item.
pub open spec fn spec_run_work(
    buf: Seq<u32>,
    item: WorkItem,
    world: World,
    textures: Textures,
    cam_pos: Vec2x,
    cam_matrix: Mat2x,
    width: int,
    height: int,
    aspect: Fx,
    time: Fx,
) -> Seq<u32> {
    spec_run_cols(
        buf,
        item,
        item.width as int,
        world,
        textures,
        cam_pos,
        cam_matrix,
        width,
        height,
        aspect,
        time,
    )
}

/// Renders one work item: every column of its range, left to right,
/// drawn into the frame buffer over its existing contents.
pub fn run_work(
    buffer: &mut Vec<u32>,
    item: WorkItem,
    world: &World,
    textures: &Textures,
    cam_pos: Vec2x,
    cam_matrix: Mat2x,
    width: usize,
    height: usize,
    aspect: Fx,
    time: Fx,
)
    requires
        scene_wf(*world, *textures, cam_pos, cam_matrix, time),
        64 <= aspect.raw <= 0x100_0000,
        old(buffer)@.len() == width * height,
        item.x_offset + item.width <= width,
        width <= 0x8000,
        1 <= height <= 0x8000,
    ensures
        final(buffer)@ == spec_run_work(
            old(buffer)@,
            item,
            *world,
            *textures,
            cam_pos,
            cam_matrix,
            width as int,
            height as int,
            aspect,
            time,
        ),
        final(buffer)@.len() == old(buffer)@.len(),
        crate::render::agree_outside_range(
            final(buffer)@,
            old(buffer)@,
            item.x_offset as int,
            item.x_offset + item.width,
            width as int,
        ),
{
    let mut i: usize = 0;
    while i < item.width
        invariant
            scene_wf(*world, *textures, cam_pos, cam_matrix, time),
            64 <= aspect.raw <= 0x100_0000,
            i <= item.width,
            item.x_offset + item.width <= width,
            width <= 0x8000,
            1 <= height <= 0x8000,
            buffer@.len() == old(buffer)@.len(),
            old(buffer)@.len() == width * height,
            buffer@ == spec_run_cols(
                old(buffer)@,
                item,
                i as int,
                *world,
                *textures,
                cam_pos,
                cam_matrix,
                width as int,
                height as int,
                aspect,
                time,
            ),
            crate::render::agree_outside_range(
                buffer@,
                old(buffer)@,
                item.x_offset as int,
                item.x_offset + i,
                width as int,
            ),
        decreases item.width - i,
    {
        let col: ImageColumn = ImageColumn::new(item.x_offset + i, width, height);
        let ghost mid: Seq<u32> = buffer@;
        render_column(
            buffer,
            col,
            item.x_offset + i,
            width,
            world,
            textures,
            cam_pos,
            cam_matrix,
            aspect,
            time,
        );
        proof {
            assert forall|k: int|
                0 <= k < buffer@.len() && !(item.x_offset <= k % (width as int) < item.x_offset + i
                    + 1) implies #[trigger] buffer@[k] == old(buffer)@[k] by {
                assert(k % (width as int) != col.x as int);
                assert(buffer@[k] == mid[k]);
                assert(mid[k] == old(buffer)@[k]);
            }
        }
        i = i + 1;
    }
}

/// The buffer after executing a sequence of work items, most recently
/// pushed first.
pub open spec fn spec_run_items(
    buf: Seq<u32>,
    items: Seq<WorkItem>,
    world: World,
    textures: Textures,
    cam_pos: Vec2x,
    cam_matrix: Mat2x,
    width: int,
    height: int,
    aspect: Fx,
    time: Fx,
) -> Seq<u32>
    decreases items.len(),
{
    if items.len() == 0 {
        buf
    } else {
        spec_run_items(
            spec_run_work(
                buf,
                items.last(),
                world,
                textures,
                cam_pos,
                cam_matrix,
                width,
                height,
                aspect,
                time,
            ),
            items.drop_last(),
            world,
            textures,
            cam_pos,
            cam_matrix,
            width,
            height,
            aspect,
            time,
        )
    }
}

/// Renders a whole frame through the shared queue: partitions the
/// frame's columns into work items, enqueues them, then pops and renders
/// items until the queue drains — the calling thread acting as a worker.
///
/// The queue must come in idle — empty with a zero busy counter, the
/// state the previous frame's drain left it in — and on return it is
/// idle again: every work item of the frame has been fully rendered and
/// the pool is ready for the next frame.
pub fn raycast_scene(
    queue: &mut WorkQueue,
    world: &World,
    textures: &Textures,
    cam_pos: Vec2x,
    cam_matrix: Mat2x,
    width: usize,
    height: usize,
    buffer: &mut Vec<u32>,
    aspect: Fx,
    time: Fx,
)
    requires
        scene_wf(*world, *textures, cam_pos, cam_matrix, time),
        64 <= aspect.raw <= 0x100_0000,
        old(buffer)@.len() == width * height,
        width <= 0x8000,
        height <= 0x8000,
        old(queue).items@.len() == 0,
        old(queue).busy == 0,
    ensures
        final(queue).items@.len() == 0,
        final(queue).busy == 0,
        height == 0 ==> final(buffer)@ == old(buffer)@,
        height >= 1 ==> final(buffer)@ == spec_run_items(
            old(buffer)@,
            spec_partition(width as int),
            *world,
            *textures,
            cam_pos,
            cam_matrix,
            width as int,
            height as int,
            aspect,
            time,
        ),
        final(buffer)@.len() == old(buffer)@.len(),
{
    if height == 0 {
        return ;
    }
    let items: Vec<WorkItem> = partition_columns(width);
    let mut i: usize = 0;
    while i < items.len()
        invariant
            i <= items@.len(),
            queue.busy == 0,
            queue.items@ == items@.take(i as int),
        decreases items@.len() - i,
    {
        queue.push(items[i]);
        proof {
            assert(items@.take(i + 1) =~= items@.take(i as int).push(items@[i as int]));
        }
        i = i + 1;
    }
    proof {
        assert(items@.take(items@.len() as int) =~= items@);
        lemma_partition_in_frame(width as int);
    }
    loop
        invariant
            scene_wf(*world, *textures, cam_pos, cam_matrix, time),
            64 <= aspect.raw <= 0x100_0000,
            width <= 0x8000,
            1 <= height <= 0x8000,
            queue.busy == 0,
            buffer@.len() == old(buffer)@.len(),
            old(buffer)@.len() == width * height,
            forall|j: int|
                0 <= j < queue.items@.len() ==> #[trigger] queue.items@[j] == spec_partition(
                    width as int,
                )[j],
            queue.items@.len() <= spec_partition(width as int).len(),
            spec_run_items(
                buffer@,
                queue.items@,
                *world,
                *textures,
                cam_pos,
                cam_matrix,
                width as int,
                height as int,
                aspect,
                time,
            ) == spec_run_items(
                old(buffer)@,
                spec_partition(width as int),
                *world,
                *textures,
                cam_pos,
                cam_matrix,
                width as int,
                height as int,
                aspect,
                time,
            ),
        ensures
            queue.items@.len() == 0,
            queue.busy == 0,
            buffer@ == spec_run_items(
                old(buffer)@,
                spec_partition(width as int),
                *world,
                *textures,
                cam_pos,
                cam_matrix,
                width as int,
                height as int,
                aspect,
                time,
            ),
        decreases queue.items@.len(),
    {
        let ghost pre_items: Seq<WorkItem> = queue.items@;
        let next: Option<WorkItem> = queue.pop();
        match next {
            None => {
                break ;
            },
            Some(item) => {
                proof {
                    assert(pre_items[pre_items.len() - 1] == spec_partition(width as int)[pre_items.len()
                        - 1]);
                    lemma_partition_in_frame(width as int);
                }
                run_work(
                    buffer,
                    item,
                    world,
                    textures,
                    cam_pos,
                    cam_matrix,
                    width,
                    height,
                    aspect,
                    time,
                );
            },
        }
    }
}

/// Division by a larger positive divisor keeps a bounded ratio bounded.
proof fn lemma_frac_bound(a: int, b: int, c: int)
    by (nonlinear_arith)
    requires
        0 <= a,
        1 <= b,
        a <= c * b,
    ensures
        a / b <= c,
{
}

/// A bounded numerator divided by a divisor of at least `dmin` keeps its
/// magnitude within `nn / dmin + 1`.
proof fn lemma_abs_frac_bound(n: int, d: int, nn: int, dmin: int)
    by (nonlinear_arith)
    requires
        iabs(n) <= nn,
        1 <= dmin <= d,
    ensures
        iabs(n / d) <= nn / dmin + 1,
{
}

} // verus!
