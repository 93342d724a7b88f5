//! Plane vectors and the playfield rectangle, with their mathematical models.

use vstd::prelude::*;

verus! {

/// A two-dimensional vector in fixed-point world coordinates.
#[derive(Clone, Copy, PartialEq, Eq, Structural, Debug)]
pub struct Vec2 {
    pub x: i64,
    pub y: i64,
}

/// The mathematical model of a `Vec2`: the same point over unbounded integers.
pub ghost struct Vec2Model {
    pub x: int,
    pub y: int,
}

impl View for Vec2 {
    type V = Vec2Model;

    open spec fn view(&self) -> Vec2Model {
        Vec2Model { x: self.x as int, y: self.y as int }
    }
}

impl Vec2 {
    pub fn new(x: i64, y: i64) -> (v: Vec2)
        ensures
            v@ == (Vec2Model { x: x as int, y: y as int }),
    {
        Vec2 { x, y }
    }
}

/// Componentwise vector sum.
pub open spec fn vadd(a: Vec2Model, b: Vec2Model) -> Vec2Model {
    Vec2Model { x: a.x + b.x, y: a.y + b.y }
}

/// Both components of `v` lie in `[-limit, limit]`.
pub open spec fn vec_within(v: Vec2Model, limit: int) -> bool {
    -limit <= v.x <= limit && -limit <= v.y <= limit
}

/// The axis-aligned rectangle whose edges reflect the particles.
#[derive(Clone, Copy, PartialEq, Eq, Structural, Debug)]
pub struct Bounds {
    pub left: i64,
    pub right: i64,
    pub bottom: i64,
    pub top: i64,
}

/// The mathematical model of a `Bounds` rectangle.
pub ghost struct BoundsModel {
    pub left: int,
    pub right: int,
    pub bottom: int,
    pub top: int,
}

impl View for Bounds {
    type V = BoundsModel;

    open spec fn view(&self) -> BoundsModel {
        BoundsModel {
            left: self.left as int,
            right: self.right as int,
            bottom: self.bottom as int,
            top: self.top as int,
        }
    }
}

impl Bounds {
    pub fn new(left: i64, right: i64, bottom: i64, top: i64) -> (b: Bounds)
        ensures
            b@ == (BoundsModel {
                left: left as int,
                right: right as int,
                bottom: bottom as int,
                top: top as int,
            }),
    {
        Bounds { left, right, bottom, top }
    }
}

} // verus!
