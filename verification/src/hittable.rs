//! What a ray's hit on a surface is recorded as.

use vstd::prelude::*;
use core::ops::Neg;
use crate::ray::Ray;
use crate::scalar::Scalar;
use crate::vector::{Point3, Vec3};

verus! {

/// A hit: where the ray struck, the surface's normal there, turned against
/// the ray, the parametric distance along the ray, and whether the ray came
/// from outside.
#[derive(Clone, Copy, Debug)]
pub struct Record {
    pub p: Point3,
    pub normal: Vec3,
    pub t: Scalar,
    pub front_face: bool,
}

impl Record {
    /// Records a hit at `p`, where `normal` is the surface's outward normal.
    /// It is kept as it is for a ray that came from outside, and negated
    /// for one from inside.
    pub fn new(p: Point3, normal: Vec3, t: Scalar, front_face: bool) -> (record: Record)
        ensures
            record.p == p,
            record.t == t,
            record.front_face == front_face,
            record.normal == if front_face {
                normal
            } else {
                normal.negated()
            },
    {
        Record { p, normal: if front_face { normal } else { normal.neg() }, t, front_face }
    }
}

/// A surface that a ray can strike.
pub trait Hittable {
    /// The nearest hit of the ray on the surface at a distance between
    /// `t_min` and `t_max`, both left out; `None` where there is none.
    fn hit(&self, r: &Ray, t_min: Scalar, t_max: Scalar) -> Option<Record>;
}

/// Whether a ray strikes a surface from outside: it does where it runs
/// against the outward normal, so that the two have a negative dot product.
pub fn front_face(direction_dot_normal: Scalar) -> (front: bool)
    ensures
        front == direction_dot_normal.less(Scalar::zero()),
{
    direction_dot_normal.lt(Scalar::zero())
}

/// Kept where it is below zero and negated where it is not, a number is
/// never above zero. This is what `Record::new` does to the normal, by the
/// sign of its dot product with the ray.
pub proof fn lemma_turned_is_not_above_zero(dot: Scalar)
    ensures
        !Scalar::zero().less(
            if dot.less(Scalar::zero()) {
                dot
            } else {
                dot.negated()
            },
        ),
{
}

} // verus!
