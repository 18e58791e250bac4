//! The world model: tiles, graphics, the sprite index, collisions, the
//! texture store and the room-blueprint vocabulary.

use raycaster::fx::Fx;
use raycaster::mat2::Vec2x;
use raycaster::random::Random;
use raycaster::texture::{
    Animation, AnimationKind, Texture, TextureInfo, Textures, VerticalImage,
};
use raycaster::world::entity::{Entities, Entity};
use raycaster::world::generate::{Direction, GenTile, GenTileKind};
use raycaster::world::tiles::{tiles_in_square, Tile, TileKind, TileMap};
use raycaster::world::World;

fn fx(v: f64) -> Fx {
    Fx::from_raw((v * 65536.0) as i64)
}

fn floor_world(w: usize, h: usize) -> World {
    let tiles: Vec<Tile> = (0..w * h).map(|_| Tile::new(TileKind::Floor)).collect();
    World::new(TileMap::new(tiles, w, h), Entities::new(), Random::with_seed(1))
}

#[test]
fn tile_kinds_carry_matching_graphics() {
    let floor = Tile::new(TileKind::Floor);
    assert!(floor.get_graphics().is_none());
    assert!(!floor.is_solid());

    let wall = Tile::new(TileKind::Wall);
    let g = wall.get_graphics().clone().unwrap();
    assert!(matches!(g.texture.texture, Texture::Wall));
    assert!(!g.is_transparent);
    assert!(matches!(g.texture.kind, AnimationKind::Looping));
    assert!(wall.is_solid());

    let window = Tile::new(TileKind::Window);
    let g = window.get_graphics().clone().unwrap();
    assert!(matches!(g.texture.texture, Texture::Window));
    assert!(g.is_transparent);
    assert!(window.is_solid());

    let open_door = Tile::new(TileKind::Door(true));
    let g = open_door.get_graphics().clone().unwrap();
    assert!(matches!(g.texture.texture, Texture::Door));
    assert!(matches!(g.texture.kind, AnimationKind::Clamped));
    assert!(!open_door.is_solid());

    let closed_door = Tile::new(TileKind::Door(false));
    let g = closed_door.get_graphics().clone().unwrap();
    assert!(matches!(g.texture.texture, Texture::DoorClose));
    assert!(!closed_door.is_solid());

    let mut t = Tile::new(TileKind::Floor);
    t.set_kind_with_time(TileKind::Wall, fx(2.0));
    assert!(matches!(t.kind(), TileKind::Wall));
    assert_eq!(t.get_graphics().clone().unwrap().texture.start_time.raw, 131072);
}

#[test]
fn map_lookups_are_bounds_checked() {
    let world = floor_world(3, 2);
    assert!(world.tiles.get(0, 0).is_some());
    assert!(world.tiles.get(2, 1).is_some());
    assert!(world.tiles.get(3, 0).is_none());
    assert!(world.tiles.get(0, 2).is_none());
    assert!(world.tiles.get(-1, 0).is_none());
    assert!(world.tiles.get(0, -1).is_none());
}

#[test]
fn collisions_follow_tile_solidity() {
    let mut tiles: Vec<Tile> = (0..9).map(|_| Tile::new(TileKind::Floor)).collect();
    tiles[4] = Tile::new(TileKind::Wall);
    let map = TileMap::new(tiles, 3, 3);
    assert!(map.tile_is_colliding(1, 1));
    assert!(!map.tile_is_colliding(0, 0));
    assert!(!map.tile_is_colliding(-1, 5));
    // A square near the wall touches it; a small one far away does not.
    assert!(map.square_is_colliding(Vec2x::new(fx(1.6), fx(1.6)), fx(0.3)));
    assert!(!map.square_is_colliding(Vec2x::new(fx(0.4), fx(0.4)), fx(0.3)));
}

#[test]
fn tiles_in_square_lists_the_touched_cells() {
    let cells = tiles_in_square(Vec2x::new(fx(1.5), fx(2.5)), fx(0.6));
    // Corners truncate to x in 0..=2, y in 1..=3.
    assert_eq!(cells.len(), 9);
    for x in 0..3i64 {
        for y in 1..4i64 {
            assert!(cells.contains(&(x, y)), "cell ({}, {}) missing", x, y);
        }
    }
}

#[test]
fn inserted_sprites_register_on_their_footprint() {
    let mut world = floor_world(4, 4);
    let id = world.insert_sprite(Texture::Evil, Vec2x::new(fx(1.5), fx(2.5)), fx(0.4), fx(0.5));
    let tile = world.tiles.get(1, 2).unwrap();
    assert_eq!(tile.sprites_inside.len(), 1);
    assert_eq!(tile.sprites_inside[0], id);
    assert_eq!(world.tiles.get(0, 0).unwrap().sprites_inside.len(), 0);
    let sp = world.get_sprite(id).unwrap();
    assert_eq!(sp.pos().x.raw, fx(1.5).raw);
    assert_eq!(sp.size().raw, fx(0.4).raw);
}

#[test]
fn moving_a_sprite_moves_its_registration() {
    let mut world = floor_world(4, 4);
    let id = world.insert_sprite(Texture::Evil, Vec2x::new(fx(0.5), fx(0.5)), fx(0.4), fx(0.5));
    let mut sprite = *world.get_sprite(id).unwrap();
    world.tiles.move_sprite(id, &mut sprite, Vec2x::new(fx(3.5), fx(3.5)));
    assert_eq!(sprite.pos().x.raw, fx(3.5).raw);
    assert_eq!(world.tiles.get(0, 0).unwrap().sprites_inside.len(), 0);
    let dest = world.tiles.get(3, 3).unwrap();
    assert_eq!(dest.sprites_inside.len(), 1);
    assert_eq!(dest.sprites_inside[0], id);
}

#[test]
fn moving_a_sprite_leaves_everything_else_alone() {
    let mut world = floor_world(5, 5);
    // Two bystanders: one sharing the mover's starting cell, one far away.
    let mover = world.insert_sprite(Texture::Evil, Vec2x::new(fx(1.5), fx(1.5)), fx(0.4), fx(0.5));
    let neighbour =
        world.insert_sprite(Texture::Fungus, Vec2x::new(fx(1.4), fx(1.6)), fx(0.2), fx(1.0));
    let far = world.insert_sprite(Texture::Rick, Vec2x::new(fx(4.5), fx(0.5)), fx(0.4), fx(0.0));
    assert_eq!(world.tiles.get(1, 1).unwrap().sprites_inside, vec![mover, neighbour]);

    let mut sprite = *world.get_sprite(mover).unwrap();
    world.tiles.move_sprite(mover, &mut sprite, Vec2x::new(fx(3.5), fx(3.5)));

    // The mover is registered exactly once, exactly on its new cell.
    for x in 0..5i64 {
        for y in 0..5i64 {
            let list = &world.tiles.get(x, y).unwrap().sprites_inside;
            let n = list.iter().filter(|&&s| s == mover).count();
            assert_eq!(n, if (x, y) == (3, 3) { 1 } else { 0 }, "cell ({}, {})", x, y);
        }
    }
    // The bystanders keep their registrations.
    assert_eq!(world.tiles.get(1, 1).unwrap().sprites_inside, vec![neighbour]);
    assert_eq!(world.tiles.get(4, 0).unwrap().sprites_inside, vec![far]);
}

#[test]
fn inserting_appends_to_every_footprint_cell() {
    let mut world = floor_world(4, 4);
    let first = world.insert_sprite(Texture::Evil, Vec2x::new(fx(2.0), fx(2.0)), fx(0.4), fx(0.5));
    // A footprint straddling four cells: corners at 1.8 and 2.2.
    let wide = world.insert_sprite(Texture::Rick, Vec2x::new(fx(2.0), fx(2.0)), fx(0.4), fx(0.0));
    for x in 1..3i64 {
        for y in 1..3i64 {
            let list = &world.tiles.get(x, y).unwrap().sprites_inside;
            assert_eq!(list.last(), Some(&wide), "cell ({}, {}) gets the id appended", x, y);
        }
    }
    // The first sprite also straddled the same four cells, so each list is
    // exactly the two ids in insertion order.
    assert_eq!(world.tiles.get(1, 1).unwrap().sprites_inside, vec![first, wide]);
    assert_eq!(world.tiles.get(0, 0).unwrap().sprites_inside.len(), 0);
}

#[test]
fn texture_store_validates_its_layout() {
    let img = VerticalImage::from_parts(2, 2, vec![None; 4]).unwrap();
    let good: Vec<TextureInfo> = (0..8)
        .map(|_| TextureInfo { id: 0, n_animation_frames: 1, fps: Fx::from_int(1) })
        .collect();
    assert!(Textures::from_parts(good.clone(), vec![img.clone()]).is_some());
    // A slot pointing past the bitmap list is refused.
    let mut bad = good.clone();
    bad[3] = TextureInfo { id: 1, n_animation_frames: 1, fps: Fx::from_int(1) };
    assert!(Textures::from_parts(bad, vec![img.clone()]).is_none());
    // A wrong slot count is refused.
    assert!(Textures::from_parts(good[..7].to_vec(), vec![img.clone()]).is_none());
    // A bitmap whose pixel count does not match its size is refused.
    assert!(VerticalImage::from_parts(2, 2, vec![None; 3]).is_none());
    assert!(VerticalImage::from_parts(0, 2, vec![]).is_none());
}

#[test]
fn animation_frames_loop_or_clamp_with_time() {
    let img = VerticalImage::from_parts(1, 1, vec![None]).unwrap();
    let images = vec![img.clone(), img.clone(), img.clone()];
    let mut infos: Vec<TextureInfo> = (0..8)
        .map(|_| TextureInfo { id: 0, n_animation_frames: 1, fps: Fx::from_int(1) })
        .collect();
    infos[0] = TextureInfo { id: 0, n_animation_frames: 3, fps: Fx::from_int(1) };
    let tx = Textures::from_parts(infos, images).unwrap();

    let looping = Animation::new_loop_with_time(Texture::Wall, Fx::from_raw(0));
    assert_eq!(tx.get_anim_index(&looping, fx(0.5)), 0);
    assert_eq!(tx.get_anim_index(&looping, fx(2.5)), 2);
    assert_eq!(tx.get_anim_index(&looping, fx(4.0)), 1);

    let clamped = Animation::new_clamp_with_time(Texture::Wall, Fx::from_raw(0));
    assert_eq!(tx.get_anim_index(&clamped, fx(7.0)), 2);
    // Before the animation starts, the first frame shows.
    let late = Animation::new_clamp_with_time(Texture::Wall, fx(5.0));
    assert_eq!(tx.get_anim_index(&late, fx(1.0)), 0);
}

#[test]
fn entity_store_keeps_entities_by_id() {
    let mut es = Entities::new();
    let e = Entity::new(Vec2x::new(fx(1.0), fx(2.0)), fx(0.2), None);
    assert_eq!(e.move_drag.raw, 65536);
    assert!(e.can_open_doors);
    let id = es.insert(e);
    assert_eq!(es.get(id).unwrap().pos.x.raw, 65536);
    let moved = Entity { pos: Vec2x::new(fx(5.0), fx(2.0)), ..e };
    assert!(es.set(id, moved));
    assert_eq!(es.get(id).unwrap().pos.x.raw, 5 * 65536);
}

#[test]
fn blueprint_tiles_and_directions() {
    let t = GenTile::new(GenTileKind::Wall);
    assert!(t.change_if.is_none());
    let t2 = t.change_if(GenTileKind::Floor, Direction::Right);
    assert!(matches!(t2.kind, GenTileKind::Wall));
    assert!(matches!(t2.change_if, Some((GenTileKind::Floor, Direction::Right))));
    assert!(matches!(Direction::Up.inverted(), Direction::Down));
    assert!(matches!(Direction::Left.inverted(), Direction::Right));
    assert_eq!(Direction::Up.to_vec(), (0, -1));
    assert_eq!(Direction::Down.to_vec(), (0, 1));
    assert_eq!(Direction::Left.to_vec(), (-1, 0));
    assert_eq!(Direction::Right.to_vec(), (1, 0));
}
