//! The bodies of a scene: their pose, geometry and dynamics class.
use vstd::prelude::*;
use crate::Id;
use crate::fixed::{LIMIT, SCALE, SCALE_SQ};

verus! {

/// An orientation, held as its cosine and sine scaled by `SCALE`.
#[derive(Debug, Clone, Copy, PartialEq, Eq, Structural)]
pub struct Rotation {
    pub cos: i64,
    pub sin: i64,
}

impl Rotation {
    /// Both components within `SCALE`, and the length within a fifth of a
    /// percent of `SCALE` (squared: within `2 * SCALE` of `SCALE_SQ`).
    pub open spec fn wf(self) -> bool {
        &&& -SCALE <= self.cos <= SCALE
        &&& -SCALE <= self.sin <= SCALE
        &&& SCALE_SQ - 2 * SCALE <= self.cos * self.cos + self.sin * self.sin <= SCALE_SQ + 2 * SCALE
    }

    /// Whether the rotation is one the library accepts.
    pub fn is_valid(&self) -> (r: bool)
        ensures
            r == self.wf(),
    {
        if !(-SCALE <= self.cos && self.cos <= SCALE && -SCALE <= self.sin && self.sin <= SCALE) {
            return false;
        }
        proof {
            crate::fixed::lemma_mul_bound(self.cos as int, self.cos as int, 1000, 1000);
            crate::fixed::lemma_mul_bound(self.sin as int, self.sin as int, 1000, 1000);
        }
        let sq = self.cos * self.cos + self.sin * self.sin;
        SCALE_SQ - 2 * SCALE <= sq && sq <= SCALE_SQ + 2 * SCALE
    }

    /// No rotation at all.
    pub fn identity() -> (r: Rotation)
        ensures
            r.cos == SCALE,
            r.sin == 0,
    {
        Rotation { cos: SCALE, sin: 0 }
    }
}

/// Pose and kinematics of one body.
///
/// Positions, velocities and accelerations are in thousandths of a pixel
/// (per frame, per frame squared); width and height are whole pixels.
#[derive(Debug, Clone, Copy, PartialEq, Eq, Structural)]
pub struct Transform {
    pub x_pos: i64,
    pub y_pos: i64,
    pub width: i32,
    pub height: i32,
    pub rotation: Rotation,
    pub vel_x: i64,
    pub vel_y: i64,
    pub accel_x: i64,
    pub accel_y: i64,
}

pub open spec fn in_limit(v: i64) -> bool {
    -LIMIT <= v <= LIMIT
}

impl Transform {
    pub open spec fn wf(self) -> bool {
        &&& in_limit(self.x_pos)
        &&& in_limit(self.y_pos)
        &&& in_limit(self.vel_x)
        &&& in_limit(self.vel_y)
        &&& in_limit(self.accel_x)
        &&& in_limit(self.accel_y)
        &&& self.width >= 0
        &&& self.height >= 0
        &&& self.rotation.wf()
    }

    /// A body at rest at the given pose.
    pub fn new(x_pos: i64, y_pos: i64, width: i32, height: i32, rotation: Rotation) -> (t: Transform)
        requires
            in_limit(x_pos),
            in_limit(y_pos),
            width >= 0,
            height >= 0,
            rotation.wf(),
        ensures
            t.wf(),
            t == (Transform {
                x_pos,
                y_pos,
                width,
                height,
                rotation,
                vel_x: 0,
                vel_y: 0,
                accel_x: 0,
                accel_y: 0,
            }),
    {
        Transform {
            x_pos,
            y_pos,
            width,
            height,
            rotation,
            vel_x: 0,
            vel_y: 0,
            accel_x: 0,
            accel_y: 0,
        }
    }
}

/// The collision geometry of a body, derived from its sprite.
#[derive(Debug, Clone, Copy, PartialEq, Eq, Structural)]
pub enum CollisionType {
    Circle,
    Rectangle,
}

/// The visual kind of a body.
#[derive(Debug, Clone, Copy, PartialEq, Eq, Structural)]
pub enum Sprite {
    Circle,
    Rectangle,
}

pub open spec fn collision_type_of(s: Sprite) -> CollisionType {
    match s {
        Sprite::Circle => CollisionType::Circle,
        Sprite::Rectangle => CollisionType::Rectangle,
    }
}

impl<'a> From<&'a Sprite> for CollisionType {
    fn from(value: &'a Sprite) -> (r: CollisionType) {
        match value {
            Sprite::Circle => CollisionType::Circle,
            Sprite::Rectangle => CollisionType::Rectangle,
        }
    }
}

impl<'a> vstd::std_specs::convert::FromSpecImpl<&'a Sprite> for CollisionType {
    open spec fn obeys_from_spec() -> bool {
        true
    }

    open spec fn from_spec(v: &'a Sprite) -> CollisionType {
        collision_type_of(*v)
    }
}

/// How a body takes part in the simulation.
#[derive(Debug, Clone, Copy, PartialEq, Eq, Structural)]
pub enum Dynamics {
    /// Never moves, receives no force and no impulse.
    Static,
    /// Fully simulated: gravity, collision impulses and position correction.
    Dynamic,
    /// Driven from outside; pushes dynamic bodies but is never pushed.
    Kinematic,
}

/// One physical body.
#[derive(Debug, Clone, Copy, PartialEq, Eq, Structural)]
pub struct Shape {
    pub transform: Transform,
    pub collision_type: CollisionType,
    pub dynamics: Dynamics,
    /// Bounciness, scaled by `SCALE` (so `SCALE` is perfectly elastic).
    pub restitution: i64,
    /// Whether the body overlapped another in the latest sub-step.
    pub colliding: bool,
}

impl Shape {
    pub open spec fn wf(self) -> bool {
        self.transform.wf() && 0 <= self.restitution <= SCALE
    }

    pub open spec fn is_dynamic(self) -> bool {
        self.dynamics == Dynamics::Dynamic
    }

    pub fn set_rotation(&mut self, rotation: Rotation)
        ensures
            *final(self) == (Shape {
                transform: Transform { rotation, ..old(self).transform },
                ..*old(self)
            }),
    {
        self.transform.rotation = rotation;
    }

    pub fn set_colliding(&mut self, colliding: bool)
        ensures
            *final(self) == (Shape { colliding, ..*old(self) }),
    {
        self.colliding = colliding;
    }
}

/// A drawable entity of the scene.
#[derive(Debug, Clone, Copy)]
pub struct Thing {
    /// Also the key of its body in the collision space, if it has one.
    pub id: Id,
    pub sprite: Sprite,
    pub color: (u8, u8, u8),
    pub dynamic: bool,
}

} // verus!
