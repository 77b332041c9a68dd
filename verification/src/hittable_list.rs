//! The scene as a list of surfaces: which of them a ray strikes first.

use vstd::prelude::*;
use crate::hittable::{Hittable, Record};
use crate::ray::Ray;
use crate::scalar::Scalar;

verus! {

/// Whether the surface at `index` was struck closer than `t_max`.
pub open spec fn struck(hits: Seq<Option<Record>>, t_max: Scalar, index: int) -> bool {
    &&& 0 <= index < hits.len()
    &&& hits[index] is Some
    &&& hits[index].unwrap().t.less(t_max)
}

/// Whether the surface at `index` is the one that a ray is reported to hit:
/// it was struck, no surface was struck closer, and of those struck at the
/// same distance it stands first in the list.
pub open spec fn nearest(hits: Seq<Option<Record>>, t_max: Scalar, index: int) -> bool {
    &&& struck(hits, t_max, index)
    &&& forall|other: int| #[trigger]
        struck(hits, t_max, other) ==> hits[index].unwrap().t.rank()
            <= hits[other].unwrap().t.rank()
    &&& forall|other: int|
        0 <= other < index && #[trigger] struck(hits, t_max, other)
            ==> hits[index].unwrap().t.rank() < hits[other].unwrap().t.rank()
}

/// What is reported of a list of hits: the record of the nearest surface,
/// or that none was struck.
pub open spec fn reported(hits: Seq<Option<Record>>, t_max: Scalar, hit: Option<Record>) -> bool {
    match hit {
        Some(record) => exists|index: int| #[trigger]
            nearest(hits, t_max, index) && hits[index] == Some(record),
        None => forall|index: int| !struck(hits, t_max, index),
    }
}

/// A scene: surfaces in the order in which they were put in.
pub struct HittableList<S: Hittable> {
    pub objects: Vec<S>,
}

/// Whether `hits` is what the surfaces answer, one after the other, each
/// asked for its hit by the ray `r` between `t_min` and `t_max`.
pub open spec fn answered<S: Hittable>(
    objects: Seq<S>,
    r: &Ray,
    t_min: Scalar,
    t_max: Scalar,
    hits: Seq<Option<Record>>,
) -> bool {
    &&& hits.len() == objects.len()
    &&& forall|i: int|
        0 <= i < hits.len() ==> call_ensures(
            S::hit,
            (&objects[i], r, t_min, t_max),
            #[trigger] hits[i],
        )
}

impl<S: Hittable> HittableList<S> {
    pub fn new(objects: Vec<S>) -> (list: HittableList<S>)
        ensures
            list.objects == objects,
    {
        HittableList { objects }
    }
}

impl<S: Hittable> Hittable for HittableList<S> {
    /// The nearest hit of the ray on a surface of the scene. Every surface
    /// is asked, in the order of the scene, for its hit by this ray between
    /// `t_min` and `t_max`. Of their answers the nearest hit closer than
    /// `t_max` is reported, the first of two that are equally near; `None`
    /// where no surface answers with a hit closer than `t_max`.
    fn hit(&self, r: &Ray, t_min: Scalar, t_max: Scalar) -> (hit: Option<Record>)
        ensures
            exists|hits: Seq<Option<Record>>| #[trigger]
                reported(hits, t_max, hit) && answered(self.objects@, r, t_min, t_max, hits),
    {
        let mut hits: Vec<Option<Record>> = Vec::new();
        let mut i: usize = 0;
        while i < self.objects.len()
            invariant
                i <= self.objects.len(),
                hits.len() == i,
                forall|j: int|
                    0 <= j < i ==> call_ensures(
                        S::hit,
                        (&self.objects@[j], r, t_min, t_max),
                        #[trigger] hits@[j],
                    ),
            decreases self.objects.len() - i,
        {
            hits.push(self.objects[i].hit(r, t_min, t_max));
            i = i + 1;
        }
        nearest_of(&hits, t_max)
    }
}

/// Of the hits that the surfaces of a scene answered, in the order of the
/// scene, the nearest one closer than `t_max`; `None` where there is none.
pub fn nearest_of(hits: &Vec<Option<Record>>, t_max: Scalar) -> (hit: Option<Record>)
    ensures
        reported(hits@, t_max, hit),
{
    let mut closest: Scalar = t_max;
    let mut first: Option<Record> = None;
    let ghost mut place: int = 0;
    let mut i: usize = 0;
    while i < hits.len()
        invariant
            i <= hits.len(),
            first is None ==> closest == t_max,
            first is None ==> forall|index: int| 0 <= index < i ==> !struck(hits@, t_max, index),
            first matches Some(record) ==> {
                &&& 0 <= place < i
                &&& hits@[place] == Some(record)
                &&& record.t == closest
                &&& closest.less(t_max)
                &&& forall|other: int|
                    0 <= other < i && #[trigger] struck(hits@, t_max, other) ==> closest.rank()
                        <= hits@[other].unwrap().t.rank()
                &&& forall|other: int|
                    0 <= other < place && #[trigger] struck(hits@, t_max, other) ==> closest.rank()
                        < hits@[other].unwrap().t.rank()
            },
        decreases hits.len() - i,
    {
        match hits[i] {
            Some(record) => {
                if record.t.lt(closest) {
                    closest = record.t;
                    first = Some(record);
                    proof {
                        place = i as int;
                    }
                }
            },
            None => {},
        }
        i = i + 1;
    }
    proof {
        if first is Some {
            assert(nearest(hits@, t_max, place));
        }
    }
    first
}

proof fn lemma_struck_in_both(
    a: Seq<Option<Record>>,
    b: Seq<Option<Record>>,
    t_max: Scalar,
    index: int,
) -> (twin: int)
    requires
        a.to_multiset() == b.to_multiset(),
        struck(a, t_max, index),
    ensures
        struck(b, t_max, twin),
        b[twin] == a[index],
{
    a.to_multiset_ensures();
    b.to_multiset_ensures();
    assert(b.to_multiset().count(a[index]) > 0);
    assert(b.contains(a[index]));
    choose|twin: int| 0 <= twin < b.len() && b[twin] == a[index]
}

/// Whether a ray hits the scene, and how far away, does not depend on the
/// order in which the surfaces were put into the list.
pub proof fn lemma_hit_ignores_order(
    a: Seq<Option<Record>>,
    b: Seq<Option<Record>>,
    t_max: Scalar,
    hit_a: Option<Record>,
    hit_b: Option<Record>,
)
    requires
        a.to_multiset() == b.to_multiset(),
        reported(a, t_max, hit_a),
        reported(b, t_max, hit_b),
    ensures
        hit_a is Some <==> hit_b is Some,
        hit_a is Some ==> hit_a.unwrap().t.rank() == hit_b.unwrap().t.rank(),
{
    if hit_a is Some {
        let i = choose|i: int| #[trigger] nearest(a, t_max, i) && a[i] == hit_a;
        let twin = lemma_struck_in_both(a, b, t_max, i);
    }
    if hit_b is Some {
        let j = choose|j: int| #[trigger] nearest(b, t_max, j) && b[j] == hit_b;
        let twin = lemma_struck_in_both(b, a, t_max, j);
    }
}

} // verus!
