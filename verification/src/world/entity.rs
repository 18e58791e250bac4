//! Entities: the moving things of the world, each with a transform and an
//! optional sprite that follows it.

use crate::fx::Fx;
use crate::id::{Id, IdMap};
use crate::mat2::Vec2x;
use crate::world::SpriteId;
use vstd::prelude::*;

verus! {

/// Identifies an entity in the entity store.
#[derive(Clone, Copy, PartialEq, Eq, Structural, Debug, Hash)]
pub struct EntityId {
    pub value: u32,
}

impl Id for EntityId {
    open spec fn index_spec(self) -> int {
        self.value as int
    }

    fn new() -> (r: Self) {
        EntityId { value: 0 }
    }

    fn create(value: u32) -> (r: Self) {
        EntityId { value }
    }

    fn get(&self) -> (r: u32) {
        self.value
    }

    fn count_next(&mut self) -> (r: Self) {
        let v: EntityId = *self;
        self.value = self.value + 1;
        v
    }
}

/// A moving thing: position, velocity, drag, facing, collision size, and
/// the sprite that depicts it.
#[derive(Clone, Copy, PartialEq, Eq, Structural, Debug)]
pub struct Entity {
    pub pos: Vec2x,
    pub vel: Vec2x,
    pub move_drag: Fx,
    pub rot: Fx,
    pub size: Fx,
    pub sprite: Option<SpriteId>,
    pub can_open_doors: bool,
}

impl Entity {
    /// A still entity at `pos` with full drag.
    pub fn new(pos: Vec2x, size: Fx, sprite: Option<SpriteId>) -> (r: Entity)
        ensures
            r == (Entity {
                pos,
                vel: Vec2x { x: Fx { raw: 0 }, y: Fx { raw: 0 } },
                move_drag: Fx { raw: 65536 },
                rot: Fx { raw: 0 },
                size,
                sprite,
                can_open_doors: true,
            }),
    {
        Entity {
            pos,
            vel: Vec2x { x: Fx { raw: 0 }, y: Fx { raw: 0 } },
            move_drag: Fx { raw: 65536 },
            rot: Fx { raw: 0 },
            size,
            sprite,
            can_open_doors: true,
        }
    }
}

/// The entity store.
pub struct Entities {
    pub entities: IdMap<EntityId, Entity>,
}

impl Entities {
    /// An empty store.
    pub fn new() -> (r: Self)
        ensures
            r.entities.wf(),
            r.entities.slots@.len() == 0,
            r.entities.id_counter == 0,
    {
        Entities { entities: IdMap::new() }
    }

    /// Stores an entity under a fresh id.
    pub fn insert(&mut self, entity: Entity) -> (r: EntityId)
        requires
            old(self).entities.wf(),
            old(self).entities.id_counter < u32::MAX,
        ensures
            final(self).entities.wf(),
            r.index_spec() == old(self).entities.id_counter,
            final(self).entities.slots@ == old(self).entities.slots@.push(Some(entity)),
            final(self).entities.id_counter == old(self).entities.id_counter + 1,
    {
        self.entities.insert(entity)
    }

    /// The entity stored under `id`, if any.
    pub fn get(&self, id: EntityId) -> (r: Option<&Entity>)
        requires
            self.entities.wf(),
        ensures
            match r {
                Some(v) => self.entities.spec_get(id.index_spec()) == Some(*v),
                None => self.entities.spec_get(id.index_spec()) is None,
            },
    {
        self.entities.get(id)
    }

    /// Overwrites the entity stored under `id`; reports whether one was
    /// there.
    pub fn set(&mut self, id: EntityId, entity: Entity) -> (r: bool)
        requires
            old(self).entities.wf(),
        ensures
            final(self).entities.wf(),
            r == (old(self).entities.spec_get(id.index_spec()) is Some),
            r ==> final(self).entities.slots@ == old(self).entities.slots@.update(
                id.index_spec(),
                Some(entity),
            ),
            !r ==> *final(self) == *old(self),
            final(self).entities.id_counter == old(self).entities.id_counter,
    {
        self.entities.set(id, entity)
    }
}

} // verus!
