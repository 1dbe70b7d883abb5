use vstd::prelude::*;

use crate::aabb::Aabb;
use crate::primitives::{
    cuboid_placeholder, medium_placeholder, sphere_placeholder, cuboid_box, max3_exec, min3_exec, points_box, sphere_box, BvhNode, Cuboid, LinearConstantMedium,
    Material, Sphere, Triangle, TriangleVertex, NULL_INDEX,
};

verus! {

/// Kind tag of a bounding-volume node.
pub const BVH_NODE: u32 = 0;

/// Kind tag of a sphere.
pub const SPHERE: u32 = 1;

/// Kind tag of a cuboid.
pub const CUBOID: u32 = 2;

/// Kind tag of a constant-density medium.
pub const CONSTANT_MEDIUM: u32 = 3;

/// Kind tag of a mesh triangle.
pub const TRIANGLE: u32 = 4;

/// A reference to one entity of the scene by kind and index into the array
/// of that kind. It owns nothing.
#[derive(Clone, Copy, Debug, PartialEq, Eq)]
pub struct LinearHittable {
    /// 0: BvhNode, 1: Sphere, 2: Cuboid, 3: ConstantMedium, 4: Triangle
    pub geometry_type: u32,
    /// Index into the scene array for that kind.
    pub scene_index: u32,
}

/// The scene: parallel arrays of every kind of entity, the hierarchy's nodes
/// and the hittable array, whose first entry is the root of the hierarchy.
#[derive(Debug)]
pub struct LinearSceneBvh {
    pub materials: Vec<Material>,
    pub hittables: Vec<LinearHittable>,
    pub bvh_nodes: Vec<BvhNode>,
    pub spheres: Vec<Sphere>,
    pub cuboids: Vec<Cuboid>,
    pub constant_mediums: Vec<LinearConstantMedium>,
    pub tri_verts: Vec<TriangleVertex>,
    pub tris: Vec<Triangle>,
}

/// `h` is a primitive (not a node of the hierarchy).
pub open spec fn is_leaf(h: LinearHittable) -> bool {
    h.geometry_type != BVH_NODE
}

/// The boundary of a medium names a sphere or cuboid that exists.
pub open spec fn medium_valid(s: &LinearSceneBvh, m: LinearConstantMedium) -> bool {
    ||| m.boundary_geometry_type == SPHERE && m.boundary_scene_index < s.spheres@.len()
    ||| m.boundary_geometry_type == CUBOID && m.boundary_scene_index < s.cuboids@.len()
}

/// The three corners of a triangle exist.
pub open spec fn triangle_valid(s: &LinearSceneBvh, t: Triangle) -> bool {
    &&& t.indices[0] < s.tri_verts@.len()
    &&& t.indices[1] < s.tri_verts@.len()
    &&& t.indices[2] < s.tri_verts@.len()
}

/// `h` is a primitive whose data, and the data its box is read from, exist.
pub open spec fn leaf_valid(s: &LinearSceneBvh, h: LinearHittable) -> bool {
    let i = h.scene_index as int;
    ||| h.geometry_type == SPHERE && i < s.spheres@.len()
    ||| h.geometry_type == CUBOID && i < s.cuboids@.len()
    ||| h.geometry_type == CONSTANT_MEDIUM && i < s.constant_mediums@.len() && medium_valid(
        s,
        s.constant_mediums@[i],
    )
    ||| h.geometry_type == TRIANGLE && i < s.tris@.len() && triangle_valid(s, s.tris@[i])
}

/// `h` names an existing node of the hierarchy or a valid primitive.
pub open spec fn hittable_valid(s: &LinearSceneBvh, h: LinearHittable) -> bool {
    ||| h.geometry_type == BVH_NODE && h.scene_index < s.bvh_nodes@.len()
    ||| leaf_valid(s, h)
}

pub open spec fn medium_box(s: &LinearSceneBvh, m: LinearConstantMedium) -> Aabb {
    if m.boundary_geometry_type == SPHERE {
        sphere_box(s.spheres@[m.boundary_scene_index as int])
    } else {
        cuboid_box(s.cuboids@[m.boundary_scene_index as int])
    }
}

pub open spec fn triangle_box(s: &LinearSceneBvh, t: Triangle) -> Aabb {
    points_box(
        s.tri_verts@[t.indices[0] as int].position,
        s.tri_verts@[t.indices[1] as int].position,
        s.tri_verts@[t.indices[2] as int].position,
    )
}

/// The bounding box of the entity that `h` names: a node's stored box, or the
/// box computed from the primitive (a medium's is its boundary's).
pub open spec fn hittable_box(s: &LinearSceneBvh, h: LinearHittable) -> Aabb {
    let i = h.scene_index as int;
    if h.geometry_type == BVH_NODE {
        s.bvh_nodes@[i].aabb
    } else if h.geometry_type == SPHERE {
        sphere_box(s.spheres@[i])
    } else if h.geometry_type == CUBOID {
        cuboid_box(s.cuboids@[i])
    } else if h.geometry_type == CONSTANT_MEDIUM {
        medium_box(s, s.constant_mediums@[i])
    } else {
        triangle_box(s, s.tris@[i])
    }
}

/// The primitive arrays of `a` and `b` are the same; only the hierarchy may differ.
pub open spec fn same_geometry(a: &LinearSceneBvh, b: &LinearSceneBvh) -> bool {
    &&& a.materials@ == b.materials@
    &&& a.spheres@ == b.spheres@
    &&& a.cuboids@ == b.cuboids@
    &&& a.constant_mediums@ == b.constant_mediums@
    &&& a.tri_verts@ == b.tri_verts@
    &&& a.tris@ == b.tris@
}

/// Primitives keep their validity and their boxes between scenes of the same geometry.
pub proof fn lemma_same_geometry_leaf(a: &LinearSceneBvh, b: &LinearSceneBvh, h: LinearHittable)
    requires
        same_geometry(a, b),
        is_leaf(h),
    ensures
        leaf_valid(a, h) == leaf_valid(b, h),
        hittable_box(a, h) == hittable_box(b, h),
{
}

impl LinearHittable {
    pub fn get_scene_index(&self) -> (r: usize)
        ensures
            r == self.scene_index,
    {
        self.scene_index as usize
    }

    /// The bounding box of the entity this refers to, looked up in `scene`.
    pub fn bounding_box(&self, scene: &LinearSceneBvh) -> (r: Aabb)
        requires
            hittable_valid(scene, *self),
        ensures
            r == hittable_box(scene, *self),
    {
        let i = self.get_scene_index();
        if self.geometry_type == BVH_NODE {
            scene.bvh_nodes[i].bounding_box()
        } else if self.geometry_type == SPHERE {
            scene.spheres[i].bounding_box()
        } else if self.geometry_type == CUBOID {
            scene.cuboids[i].bounding_box()
        } else if self.geometry_type == CONSTANT_MEDIUM {
            scene.constant_mediums[i].bounding_box(scene)
        } else {
            scene.tris[i].bounding_box(scene)
        }
    }
}

impl LinearConstantMedium {
    /// The bounding box of the medium: that of its boundary.
    pub fn bounding_box(&self, scene: &LinearSceneBvh) -> (r: Aabb)
        requires
            medium_valid(scene, *self),
        ensures
            r == medium_box(scene, *self),
    {
        let i = self.boundary_scene_index as usize;
        if self.boundary_geometry_type == SPHERE {
            scene.spheres[i].bounding_box()
        } else {
            scene.cuboids[i].bounding_box()
        }
    }
}

impl Triangle {
    /// The bounding box of the triangle's three corners.
    pub fn bounding_box(&self, scene: &LinearSceneBvh) -> (r: Aabb)
        requires
            triangle_valid(scene, *self),
        ensures
            r == triangle_box(scene, *self),
    {
        let p = scene.tri_verts[self.indices[0] as usize].position;
        let q = scene.tri_verts[self.indices[1] as usize].position;
        let s = scene.tri_verts[self.indices[2] as usize].position;
        Aabb::new(
            [min3_exec(p[0], q[0], s[0]), min3_exec(p[1], q[1], s[1]), min3_exec(p[2], q[2], s[2])],
            [max3_exec(p[0], q[0], s[0]), max3_exec(p[1], q[1], s[1]), max3_exec(p[2], q[2], s[2])],
        )
    }
}

/// `b` is `a`, or the single entry `x` where `a` is empty.
pub open spec fn padded<T>(a: Seq<T>, b: Seq<T>, x: T) -> bool {
    if a.len() == 0 {
        b == seq![x]
    } else {
        b == a
    }
}

impl LinearSceneBvh {
    /// Puts one placeholder entry into each empty array that may be empty,
    /// since a GPU binding cannot be of length zero. There must be at least
    /// one material and one hittable.
    pub fn check_pad_empty_arrays(&mut self)
        requires
            old(self).materials@.len() >= 1,
            old(self).hittables@.len() >= 1,
        ensures
            final(self).materials@ == old(self).materials@,
            final(self).hittables@ == old(self).hittables@,
            padded(
                old(self).bvh_nodes@,
                final(self).bvh_nodes@,
                BvhNode {
                    left_hittable: NULL_INDEX,
                    right_hittable: NULL_INDEX,
                    aabb: Aabb { min: [0, 0, 0], max: [0, 0, 0] },
                },
            ),
            padded(old(self).spheres@, final(self).spheres@, sphere_placeholder()),
            padded(old(self).cuboids@, final(self).cuboids@, cuboid_placeholder()),
            padded(old(self).constant_mediums@, final(self).constant_mediums@, medium_placeholder()),
            padded(
                old(self).tri_verts@,
                final(self).tri_verts@,
                TriangleVertex { position: [0, 0, 0] },
            ),
            padded(
                old(self).tris@,
                final(self).tris@,
                Triangle { material_index: NULL_INDEX, indices: [0, 0, 0] },
            ),
    {
        if self.bvh_nodes.len() == 0 {
            self.bvh_nodes.push(BvhNode::empty());
            assert(self.bvh_nodes@ =~= seq![
                BvhNode {
                    left_hittable: NULL_INDEX,
                    right_hittable: NULL_INDEX,
                    aabb: Aabb { min: [0, 0, 0], max: [0, 0, 0] },
                },
            ]);
        }
        if self.spheres.len() == 0 {
            self.spheres.push(Sphere::empty());
            assert(self.spheres@ =~= seq![sphere_placeholder()]);
        }
        if self.cuboids.len() == 0 {
            self.cuboids.push(Cuboid::empty());
            assert(self.cuboids@ =~= seq![cuboid_placeholder()]);
        }
        if self.constant_mediums.len() == 0 {
            self.constant_mediums.push(LinearConstantMedium::empty());
            assert(self.constant_mediums@ =~= seq![medium_placeholder()]);
        }
        if self.tri_verts.len() == 0 {
            self.tri_verts.push(TriangleVertex::empty());
            assert(self.tri_verts@ =~= seq![TriangleVertex { position: [0, 0, 0] }]);
        }
        if self.tris.len() == 0 {
            self.tris.push(Triangle::empty());
            assert(self.tris@ =~= seq![Triangle { material_index: NULL_INDEX, indices: [0, 0, 0] }]);
        }
    }

    pub fn null_index_ptr() -> (r: u32)
        ensures
            r == NULL_INDEX,
    {
        NULL_INDEX
    }

    /// A scene with every array empty.
    pub fn new() -> (r: LinearSceneBvh)
        ensures
            r.materials@.len() == 0,
            r.hittables@.len() == 0,
            r.bvh_nodes@.len() == 0,
            r.spheres@.len() == 0,
            r.cuboids@.len() == 0,
            r.constant_mediums@.len() == 0,
            r.tri_verts@.len() == 0,
            r.tris@.len() == 0,
    {
        LinearSceneBvh {
            materials: Vec::new(),
            hittables: Vec::new(),
            bvh_nodes: Vec::new(),
            spheres: Vec::new(),
            cuboids: Vec::new(),
            constant_mediums: Vec::new(),
            tri_verts: Vec::new(),
            tris: Vec::new(),
        }
    }
}

} // verus!
