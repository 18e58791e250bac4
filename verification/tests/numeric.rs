//! Fixed-point arithmetic, the range iterator, ids and the random
//! generator.

use raycaster::fx::Fx;
use raycaster::fx_range::range;
use raycaster::id::{Id, IdMap};
use raycaster::random::Random;
use raycaster::world::SpriteId;

#[test]
fn fx_basic_ops() {
    let a = Fx::from_int(3);
    let b = Fx::from_int(2);
    assert_eq!(a.raw, 3 * 65536);
    assert_eq!(a.add(b).raw, 5 * 65536);
    assert_eq!(a.sub(b).raw, 65536);
    assert_eq!(a.mul(b).raw, 6 * 65536);
    assert_eq!(a.div(b).raw, 98304);
    assert_eq!(Fx::from_raw(-98304).floor_int(), -2);
    assert_eq!(Fx::from_raw(-98304).trunc_int(), -1);
    assert_eq!(Fx::from_raw(-98304).fract().raw, 32768);
    assert_eq!(Fx::from_raw(98304).fract().raw, 32768);
    assert_eq!(Fx::from_raw(-5).abs().raw, 5);
    assert_eq!(Fx::from_raw(7).neg().raw, -7);
    assert!(Fx::from_raw(1).lt(Fx::from_raw(2)));
    assert!(Fx::from_raw(2).le(Fx::from_raw(2)));
    assert_eq!(Fx::from_raw(1).min(Fx::from_raw(2)).raw, 1);
    assert_eq!(Fx::from_raw(1).max(Fx::from_raw(2)).raw, 2);
}

#[test]
fn fx_division_floors_toward_minus_infinity() {
    // -3 / 2 in fixed point: -1.5 exactly representable.
    let r = Fx::from_int(-3).div(Fx::from_int(2));
    assert_eq!(r.raw, -98304);
    // -1 raw unit divided by a whole number floors down, not toward zero.
    let r2 = Fx::from_raw(-1).div(Fx::from_int(1));
    assert_eq!(r2.raw, -1);
}

#[test]
fn fx_range_walks_row_boundaries() {
    // From 0.5 to 2.25: yields 0.5, 1.0, 2.0, then the goal 2.25.
    let mut it = range(Fx::from_raw(32768), Fx::from_raw(147456));
    let mut got: Vec<i64> = Vec::new();
    while let Some(v) = it.next() {
        got.push(v.raw);
    }
    assert_eq!(got, vec![32768, 65536, 131072, 147456]);
}

#[test]
fn fx_range_empty_span_yields_goal_once() {
    let mut it = range(Fx::from_raw(65536), Fx::from_raw(65536));
    assert_eq!(it.next().map(|v| v.raw), Some(65536));
    assert!(it.next().is_none());
}

#[test]
fn random_is_a_deterministic_xorshift() {
    let mut r = Random::with_seed(12345);
    let mut s: u32 = 12345;
    for _ in 0..8 {
        s ^= s << 13;
        s ^= s >> 17;
        s ^= s << 5;
        assert_eq!(r.get_32(), s);
    }
    let mut r2 = Random::with_seed(99);
    let u = r2.get_unit();
    assert!(0 <= u.raw && u.raw < 65536);
    let mut r3 = Random::with_seed(99);
    assert_eq!(u.raw, (r3.get_32() & 0xffff) as i64);
}

#[test]
fn id_map_hands_out_sequential_ids() {
    let mut m: IdMap<SpriteId, u64> = IdMap::new();
    let a = m.insert(10);
    let b = m.insert(20);
    assert_eq!(a.value, 0);
    assert_eq!(b.value, 1);
    assert_eq!(m.get(a).copied(), Some(10));
    assert_eq!(m.get(b).copied(), Some(20));
    assert_eq!(m.get(SpriteId::create_raw(7)), None);
    assert!(m.set(a, 11));
    assert_eq!(m.get(a).copied(), Some(11));
    assert!(!m.set(SpriteId::create_raw(7), 1));
}

#[test]
fn id_trait_counts() {
    let mut id = SpriteId::create(4);
    assert_eq!(id.get(), 4);
    assert_eq!(id.into_index(), 4);
    let before = id.count_next();
    assert_eq!(before.get(), 4);
    assert_eq!(id.get(), 5);
    assert_eq!(SpriteId::new().get(), 0);
}
