//! The scene: drawable things, each with an identifier that also keys its
//! body in the collision space.
use vstd::prelude::*;
use crate::Id;
use crate::collision::CollisionSpace;
use crate::fixed::SCALE;
use crate::things::{collision_type_of, CollisionType, Dynamics, Shape, Sprite, Thing, Transform};

verus! {

/// The things of a scene and the allocator of their identifiers.
pub struct Space {
    /// The next identifier to hand out; identifiers are never reused.
    pub counter: Id,
    pub things: Vec<Thing>,
}

/// Every body of the collision space has an identifier below `counter`.
pub open spec fn ids_below(cs: &CollisionSpace, counter: Id) -> bool {
    forall|q: int| 0 <= q < cs.ids@.len() ==> #[trigger] cs.ids@[q] < counter
}

pub open spec fn color_or_black(color: Option<(u8, u8, u8)>) -> (u8, u8, u8) {
    match color {
        Some(c) => c,
        None => (0, 0, 0),
    }
}

impl Space {
    /// An empty scene.
    pub fn new() -> (r: Space)
        ensures
            r.counter == 0,
            r.things@.len() == 0,
    {
        Space { counter: 0, things: Vec::new() }
    }

    /// A fresh identifier: each call returns one more than the last.
    fn gen_id(&mut self) -> (r: Id)
        requires
            old(self).counter < u16::MAX,
        ensures
            r == old(self).counter,
            final(self).counter == old(self).counter + 1,
            final(self).things == old(self).things,
    {
        let id = self.counter;
        self.counter = self.counter + 1;
        id
    }

    /// Adds a thing under a fresh identifier. With `dynamics`, the thing also
    /// gets a body in `collision_space`, under the same identifier, with the
    /// collision type of its sprite; without, it is drawn only. A missing
    /// color is black.
    pub fn register(
        &mut self,
        init_transform: Transform,
        sprite: Sprite,
        color: Option<(u8, u8, u8)>,
        dynamics: Option<Dynamics>,
        restitution: i64,
        collision_space: &mut CollisionSpace,
    ) -> (r: Id)
        requires
            old(self).counter < u16::MAX,
            old(collision_space).wf(),
            ids_below(old(collision_space), old(self).counter),
            init_transform.wf(),
            0 <= restitution <= SCALE,
        ensures
            r == old(self).counter,
            final(self).counter == old(self).counter + 1,
            final(self).things@ == old(self).things@.push(
                Thing { id: r, sprite, color: color_or_black(color), dynamic: dynamics is Some },
            ),
            final(collision_space).wf(),
            ids_below(final(collision_space), final(self).counter),
            match dynamics {
                Some(d) => {
                    &&& final(collision_space).ids@ == old(collision_space).ids@.push(r)
                    &&& final(collision_space).shapes@ == old(collision_space).shapes@.push(Shape {
                        transform: init_transform,
                        collision_type: collision_type_of(sprite),
                        dynamics: d,
                        restitution,
                        colliding: false,
                    })
                },
                None => {
                    &&& final(collision_space).ids == old(collision_space).ids
                    &&& final(collision_space).shapes == old(collision_space).shapes
                },
            },
    {
        let new_id = self.gen_id();
        let new_thing = Thing {
            id: new_id,
            sprite,
            color: match color {
                Some(c) => c,
                None => (0, 0, 0),
            },
            dynamic: dynamics.is_some(),
        };
        match dynamics {
            Some(d) => {
                assert(!old(collision_space).ids@.contains(new_id)) by {
                    if old(collision_space).ids@.contains(new_id) {
                        let q = choose|q: int| 0 <= q < old(collision_space).ids@.len()
                            && old(collision_space).ids@[q] == new_id;
                        assert(old(collision_space).ids@[q] < old(self).counter);
                    }
                }
                let ct = CollisionType::from(&new_thing.sprite);
                collision_space.register(new_thing.id, init_transform, ct, restitution, d);
                assert forall|q: int| 0 <= q < collision_space.ids@.len() implies
                    #[trigger] collision_space.ids@[q] < self.counter by {
                    if q < old(collision_space).ids@.len() {
                        assert(old(collision_space).ids@[q] < old(self).counter);
                    }
                }
            },
            None => {},
        }
        self.things.push(new_thing);
        new_id
    }
}

} // verus!
