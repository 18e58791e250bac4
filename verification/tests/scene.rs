//! Whole-scene rendering: hit collection, projection, determinism across
//! schedules, and the drain guarantee of the scheduler.

use raycaster::fx::Fx;
use raycaster::mat2::{inverse_mat2, Mat2x, Vec2x};
use raycaster::random::Random;
use raycaster::render::ImageColumn;
use raycaster::texture::{Texture, TextureInfo, Textures, VerticalImage};
use raycaster::threading::{
    collect_hits, partition_columns, raycast_scene, render_column, run_work, sort_hits, HitData,
    WorkQueue, SPLIT_SIZE,
};
use raycaster::world::entity::Entities;
use raycaster::world::tiles::{Tile, TileKind, TileMap};
use raycaster::world::World;

fn fx(v: f64) -> Fx {
    Fx::from_raw((v * 65536.0) as i64)
}

fn identity_basis() -> Mat2x {
    Mat2x::new(Fx::from_int(1), Fx::from_raw(0), Fx::from_raw(0), Fx::from_int(1))
}

fn test_textures() -> Textures {
    let img = VerticalImage::from_parts(2, 2, vec![Some([255, 255, 255]); 4]).unwrap();
    let infos: Vec<TextureInfo> = (0..8)
        .map(|_| TextureInfo { id: 0, n_animation_frames: 1, fps: Fx::from_int(1) })
        .collect();
    Textures::from_parts(infos, vec![img]).unwrap()
}

fn floor_world(w: usize, h: usize) -> World {
    let tiles: Vec<Tile> = (0..w * h).map(|_| Tile::new(TileKind::Floor)).collect();
    World::new(TileMap::new(tiles, w, h), Entities::new(), Random::with_seed(1))
}

fn world_with_wall(w: usize, h: usize, wx: usize, wy: usize) -> World {
    let tiles: Vec<Tile> = (0..w * h)
        .map(|i| {
            if i == wy * w + wx {
                Tile::new(TileKind::Wall)
            } else {
                Tile::new(TileKind::Floor)
            }
        })
        .collect();
    World::new(TileMap::new(tiles, w, h), Entities::new(), Random::with_seed(1))
}

#[test]
fn wall_hit_projects_to_reciprocal_of_distance() {
    // Camera at (2.5, 2.5) looking along +y; the wall row sits at y = 4,
    // so the ray enters it at distance 1.5.
    let world = world_with_wall(5, 5, 2, 4);
    let textures = test_textures();
    let cam = Vec2x::new(fx(2.5), fx(2.5));
    let inv = inverse_mat2(identity_basis());
    let dir = Vec2x::new(Fx::from_raw(0), Fx::from_int(1));
    let hits = collect_hits(&world, &textures, cam, inv, Fx::from_raw(0), Fx::from_raw(0), dir);
    assert_eq!(hits.len(), 1);
    let hit = hits[0];
    let d = 1.5f64;
    assert_eq!(hit.dist.raw, (d * 65536.0) as i64);
    assert_eq!(hit.size.raw, 65536);
    assert_eq!(hit.y_pos.raw, 32768);
    // Projected strip size: the fixed-point reciprocal of the distance,
    // padded by one raw unit.
    let strip = (65536i64 * 65536) / (1 + hit.dist.raw);
    let ideal = (65536.0 / d) as i64;
    assert!((strip - ideal).abs() <= 2, "strip {} vs 1/d {}", strip, ideal);
}

#[test]
fn opaque_walls_stop_the_ray_and_windows_do_not() {
    let mut tiles: Vec<Tile> = (0..7).map(|_| Tile::new(TileKind::Floor)).collect();
    tiles[3] = Tile::new(TileKind::Window);
    tiles[5] = Tile::new(TileKind::Wall);
    let world = World::new(TileMap::new(tiles, 1, 7), Entities::new(), Random::with_seed(1));
    let textures = test_textures();
    let cam = Vec2x::new(fx(0.5), fx(0.5));
    let inv = inverse_mat2(identity_basis());
    let dir = Vec2x::new(Fx::from_raw(0), Fx::from_int(1));
    let hits = collect_hits(&world, &textures, cam, inv, Fx::from_raw(0), Fx::from_raw(0), dir);
    // The window at y = 3 lets the ray continue to the wall at y = 5.
    assert_eq!(hits.len(), 2);
    assert!(hits[0].dist.raw < hits[1].dist.raw);
}

#[test]
fn floor_only_world_collects_nothing_and_draws_nothing() {
    let world = floor_world(1, 1);
    let textures = test_textures();
    let poses = vec![
        (0.5, 0.5, 0.0, 1.0),
        (0.2, 0.8, 1.0, 0.0),
        (0.9, 0.1, -1.0, -1.0),
    ];
    for (px, py, dx, dy) in poses {
        let cam = Vec2x::new(fx(px), fx(py));
        let inv = inverse_mat2(identity_basis());
        let dir = Vec2x::new(fx(dx), fx(dy));
        let hits = collect_hits(&world, &textures, cam, inv, Fx::from_raw(0), Fx::from_raw(0), dir);
        assert_eq!(hits.len(), 0);
        let mut queue = WorkQueue::new();
        let mut buf: Vec<u32> = vec![42; 16 * 8];
        raycast_scene(
            &mut queue,
            &world,
            &textures,
            cam,
            identity_basis(),
            16,
            8,
            &mut buf,
            Fx::from_int(1),
            Fx::from_raw(0),
        );
        assert!(buf.iter().all(|&p| p == 42), "no pixel beyond background may be written");
    }
}

#[test]
fn sorted_hits_ascend_and_keep_contents() {
    let mk = |d: i64| HitData {
        dist: Fx::from_raw(d),
        size: Fx::from_int(1),
        uv: Fx::from_raw(0),
        image: 0,
        y_pos: Fx::from_raw(32768),
    };
    let hits = vec![mk(500), mk(100), mk(300), mk(100), mk(200)];
    let sorted = sort_hits(hits.clone());
    assert_eq!(sorted.len(), hits.len());
    let dists: Vec<i64> = sorted.iter().map(|h| h.dist.raw).collect();
    assert_eq!(dists, vec![100, 100, 200, 300, 500]);
}

#[test]
fn frame_is_identical_across_schedules() {
    // The same scene rendered through the queue, item by item in forward
    // order, and column by column must be byte-identical: chunks are
    // disjoint, so the schedule cannot matter.
    let world = world_with_wall(6, 6, 3, 4);
    let textures = test_textures();
    let cam = Vec2x::new(fx(3.2), fx(1.7));
    let basis = identity_basis();
    let width: usize = 150;
    let height: usize = 90;
    let aspect = fx(0.6);

    let mut queue = WorkQueue::new();
    let mut via_queue: Vec<u32> = vec![0; width * height];
    raycast_scene(
        &mut queue,
        &world,
        &textures,
        cam,
        basis,
        width,
        height,
        &mut via_queue,
        aspect,
        Fx::from_raw(0),
    );

    let items = partition_columns(width);
    assert_eq!(items.len(), (width + SPLIT_SIZE - 1) / SPLIT_SIZE);
    let mut via_items: Vec<u32> = vec![0; width * height];
    for item in items.iter() {
        run_work(
            &mut via_items,
            *item,
            &world,
            &textures,
            cam,
            basis,
            width,
            height,
            aspect,
            Fx::from_raw(0),
        );
    }
    assert_eq!(via_queue, via_items);

    let mut via_columns: Vec<u32> = vec![0; width * height];
    for x in 0..width {
        let col = ImageColumn::new(x, width, height);
        render_column(
            &mut via_columns,
            col,
            x,
            width,
            &world,
            &textures,
            cam,
            basis,
            aspect,
            Fx::from_raw(0),
        );
    }
    assert_eq!(via_queue, via_columns);
}

#[test]
fn column_buffer_view_matches_full_frame() {
    // Rendering a screen column into a one-wide buffer (how a worker
    // scatters columns) must give the same pixels as rendering the same
    // column in place in the full frame: the ray follows the screen
    // position, not the buffer placement.
    let world = world_with_wall(6, 6, 3, 4);
    let textures = test_textures();
    let cam = Vec2x::new(fx(3.2), fx(2.1));
    let basis = identity_basis();
    let width: usize = 40;
    let height: usize = 30;
    let aspect = fx(0.75);

    let mut frame: Vec<u32> = vec![0; width * height];
    for x in 0..width {
        render_column(
            &mut frame,
            ImageColumn::new(x, width, height),
            x,
            width,
            &world,
            &textures,
            cam,
            basis,
            aspect,
            Fx::from_raw(0),
        );
    }
    for x in 0..width {
        let mut colbuf: Vec<u32> = vec![0; height];
        render_column(
            &mut colbuf,
            ImageColumn::new(0, 1, height),
            x,
            width,
            &world,
            &textures,
            cam,
            basis,
            aspect,
            Fx::from_raw(0),
        );
        for row in 0..height {
            assert_eq!(colbuf[row], frame[row * width + x], "column {} row {}", x, row);
        }
    }
}

#[test]
fn scheduler_drains_queue_and_busy_counter() {
    let world = world_with_wall(4, 4, 1, 2);
    let textures = test_textures();
    let mut queue = WorkQueue::new();
    let mut buf: Vec<u32> = vec![0; 200 * 60];
    raycast_scene(
        &mut queue,
        &world,
        &textures,
        Vec2x::new(fx(1.5), fx(1.5)),
        identity_basis(),
        200,
        60,
        &mut buf,
        fx(0.3),
        Fx::from_raw(0),
    );
    assert_eq!(queue.len(), 0, "the shared queue must be drained");
    assert_eq!(queue.busy_count(), 0, "no work may still be marked busy");
}

#[test]
fn partition_covers_columns_in_disjoint_chunks() {
    for width in [0usize, 1, 63, 64, 65, 130, 256] {
        let items = partition_columns(width);
        let mut covered: Vec<usize> = vec![0; width];
        for item in items.iter() {
            assert!(item.width >= 1 && item.width <= SPLIT_SIZE);
            for c in item.x_offset..item.x_offset + item.width {
                covered[c] += 1;
            }
        }
        assert!(covered.iter().all(|&n| n == 1), "width {}: each column exactly once", width);
    }
}
