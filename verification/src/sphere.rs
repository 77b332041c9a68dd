//! The sphere's intersection test, once the quadratic has been solved: which
//! of its roots, if any, is the hit.
//!
//! Nothing is asked of the sphere or of the ray. A radius of zero or a ray
//! without direction gives a discriminant or roots that stand for no
//! number; those compare with nothing, and the ray misses.

use vstd::prelude::*;
use crate::scalar::Scalar;

verus! {

/// One of the two places where a ray's line crosses a sphere.
#[derive(Clone, Copy, Debug, PartialEq, Eq, Structural)]
pub enum Root {
    /// `(-half_b - sqrt(discriminant)) / a`
    Near,
    /// `(-half_b + sqrt(discriminant)) / a`
    Far,
}

impl Root {
    /// The root that is meant, of the two.
    pub open spec fn of(self, near: Scalar, far: Scalar) -> Scalar {
        match self {
            Root::Near => near,
            Root::Far => far,
        }
    }
}

/// Whether `t` lies in the open interval from `t_min` to `t_max`.
pub open spec fn within(t: Scalar, t_min: Scalar, t_max: Scalar) -> bool {
    t.less(t_max) && t_min.less(t)
}

/// The root at which a ray hits a sphere. A discriminant that is not above
/// zero is a miss, the tangent ray included. Otherwise the near root is
/// taken if it lies in the interval, else the far root if that one does.
pub open spec fn first_root(
    discriminant: Scalar,
    near: Scalar,
    far: Scalar,
    t_min: Scalar,
    t_max: Scalar,
) -> Option<Root> {
    if !Scalar::zero().less(discriminant) {
        None
    } else if within(near, t_min, t_max) {
        Some(Root::Near)
    } else if within(far, t_min, t_max) {
        Some(Root::Far)
    } else {
        None
    }
}

/// The root at which a ray hits a sphere, given the discriminant of the
/// quadratic and its two roots; `None` where the ray misses.
pub fn select_root(
    discriminant: Scalar,
    near: Scalar,
    far: Scalar,
    t_min: Scalar,
    t_max: Scalar,
) -> (root: Option<Root>)
    ensures
        root == first_root(discriminant, near, far, t_min, t_max),
{
    if !discriminant.gt(Scalar::zero()) {
        None
    } else if near.lt(t_max) && near.gt(t_min) {
        Some(Root::Near)
    } else if far.lt(t_max) && far.gt(t_min) {
        Some(Root::Far)
    } else {
        None
    }
}

/// A ray that touches the sphere in one point misses it: with a discriminant
/// of zero, of either sign, no root is taken.
pub proof fn lemma_tangent_misses(
    discriminant: Scalar,
    near: Scalar,
    far: Scalar,
    t_min: Scalar,
    t_max: Scalar,
)
    requires
        discriminant.magnitude() == 0,
    ensures
        first_root(discriminant, near, far, t_min, t_max) is None,
{
}

/// With the roots in their order, the root taken lies in the interval, and
/// no root in the interval lies nearer. A root is taken whenever one lies
/// there.
pub proof fn lemma_nearest_root_is_taken(
    discriminant: Scalar,
    near: Scalar,
    far: Scalar,
    t_min: Scalar,
    t_max: Scalar,
    other: Root,
)
    requires
        Scalar::zero().less(discriminant),
        !far.less(near),
        within(other.of(near, far), t_min, t_max),
    ensures
        first_root(discriminant, near, far, t_min, t_max) matches Some(taken) && within(
            taken.of(near, far),
            t_min,
            t_max,
        ) && taken.of(near, far).rank() <= other.of(near, far).rank(),
{
}

} // verus!
