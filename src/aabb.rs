use vstd::prelude::*;

verus! {

/// Axis-aligned bounding box given by its minimum and maximum corners.
#[derive(Clone, Copy, Debug, PartialEq, Eq)]
pub struct Aabb {
    pub min: [i64; 3],
    pub max: [i64; 3],
}

/// The box that surrounds both `a` and `b`: componentwise minimum of the
/// minima and maximum of the maxima.
pub open spec fn union_box(a: Aabb, b: Aabb) -> Aabb {
    Aabb {
        min: [
            if a.min[0] <= b.min[0] { a.min[0] } else { b.min[0] },
            if a.min[1] <= b.min[1] { a.min[1] } else { b.min[1] },
            if a.min[2] <= b.min[2] { a.min[2] } else { b.min[2] },
        ],
        max: [
            if a.max[0] >= b.max[0] { a.max[0] } else { b.max[0] },
            if a.max[1] >= b.max[1] { a.max[1] } else { b.max[1] },
            if a.max[2] >= b.max[2] { a.max[2] } else { b.max[2] },
        ],
    }
}

/// `outer` encloses `inner` on every axis.
pub open spec fn contains(outer: Aabb, inner: Aabb) -> bool {
    &&& outer.min[0] <= inner.min[0] && inner.max[0] <= outer.max[0]
    &&& outer.min[1] <= inner.min[1] && inner.max[1] <= outer.max[1]
    &&& outer.min[2] <= inner.min[2] && inner.max[2] <= outer.max[2]
}

impl Aabb {
    /// A box with the given corners.
    pub fn new(min: [i64; 3], max: [i64; 3]) -> (r: Aabb)
        ensures
            r.min == min,
            r.max == max,
    {
        Aabb { min, max }
    }

    /// The placeholder box: zero extent at the origin.
    pub fn empty() -> (r: Aabb)
        ensures
            r == (Aabb { min: [0, 0, 0], max: [0, 0, 0] }),
    {
        Aabb { min: [0, 0, 0], max: [0, 0, 0] }
    }

    pub fn min(&self) -> (r: &[i64; 3])
        ensures
            *r == self.min,
    {
        &self.min
    }

    pub fn max(&self) -> (r: &[i64; 3])
        ensures
            *r == self.max,
    {
        &self.max
    }
}

/// Compute the bounding box of two bounding boxes.
pub fn surrounding_box(box0: &Aabb, box1: &Aabb) -> (r: Aabb)
    ensures
        r == union_box(*box0, *box1),
{
    let small = [
        if box0.min[0] <= box1.min[0] { box0.min[0] } else { box1.min[0] },
        if box0.min[1] <= box1.min[1] { box0.min[1] } else { box1.min[1] },
        if box0.min[2] <= box1.min[2] { box0.min[2] } else { box1.min[2] },
    ];
    let big = [
        if box0.max[0] >= box1.max[0] { box0.max[0] } else { box1.max[0] },
        if box0.max[1] >= box1.max[1] { box0.max[1] } else { box1.max[1] },
        if box0.max[2] >= box1.max[2] { box0.max[2] } else { box1.max[2] },
    ];
    Aabb::new(small, big)
}

/// The surrounding box encloses both of its arguments.
pub proof fn lemma_union_contains(a: Aabb, b: Aabb)
    ensures
        contains(union_box(a, b), a),
        contains(union_box(a, b), b),
{
}

/// Enclosure is transitive.
pub proof fn lemma_contains_trans(a: Aabb, b: Aabb, c: Aabb)
    requires
        contains(a, b),
        contains(b, c),
    ensures
        contains(a, c),
{
}

} // verus!
