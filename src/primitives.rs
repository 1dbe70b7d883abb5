use vstd::prelude::*;

use crate::aabb::Aabb;

verus! {

/// The index that stands for "no entry", understood identically by the
/// shader that reads the arena.
pub const NULL_INDEX: u32 = 0xFFFF_FFFF;

/// Surface description. The scalar parameters are fixed-point values in
/// thousandths.
#[derive(Clone, Copy, Debug, PartialEq, Eq)]
pub struct Material {
    /// 0: lambertian, 1: metal, 2: dielectric, 3: emissive, 4: isotropic medium, 5: albedo blend
    pub material_type: u32,
    /// Roughness for metals.
    pub fuzz: u32,
    /// Refraction index for dielectrics.
    pub refraction_index: u32,
    /// Colour of the ray bounce.
    pub albedo: [u32; 3],
}

impl Material {
    pub fn new(material_type: u32, fuzz: u32, refraction_index: u32, albedo: [u32; 3]) -> (r:
        Material)
        ensures
            r == (Material { material_type, fuzz, refraction_index, albedo }),
    {
        Material { material_type, fuzz, refraction_index, albedo }
    }

    /// The neutral material used to pad an empty material array.
    pub fn empty() -> (r: Material)
        ensures
            r.material_type == 0 && r.fuzz == 0 && r.refraction_index == 0,
            r.albedo[0] == 0 && r.albedo[1] == 0 && r.albedo[2] == 0,
    {
        Material { material_type: 0, fuzz: 0, refraction_index: 0, albedo: [0, 0, 0] }
    }
}

/// A sphere given by centre and radius.
#[derive(Clone, Copy, Debug, PartialEq, Eq)]
pub struct Sphere {
    pub center: [i32; 3],
    pub radius: i32,
    /// Index of the material in the scene.
    pub material_index: u32,
}

/// The box of a sphere: its centre less and plus its radius on every axis.
pub open spec fn sphere_box(s: Sphere) -> Aabb {
    Aabb {
        min: [
            (s.center[0] - s.radius) as i64,
            (s.center[1] - s.radius) as i64,
            (s.center[2] - s.radius) as i64,
        ],
        max: [
            (s.center[0] + s.radius) as i64,
            (s.center[1] + s.radius) as i64,
            (s.center[2] + s.radius) as i64,
        ],
    }
}

pub open spec fn sphere_placeholder() -> Sphere {
    Sphere { center: [0, 0, 0], radius: 0, material_index: NULL_INDEX }
}

impl Sphere {
    pub fn new(center: [i32; 3], radius: i32, material_index: u32) -> (r: Sphere)
        ensures
            r == (Sphere { center, radius, material_index }),
    {
        Sphere { center, radius, material_index }
    }

    /// The placeholder sphere: zero radius at the origin, no material.
    pub fn empty() -> (r: Sphere)
        ensures
            r == sphere_placeholder(),
    {
        Sphere { center: [0, 0, 0], radius: 0, material_index: NULL_INDEX }
    }

    pub fn bounding_box(&self) -> (r: Aabb)
        ensures
            r == sphere_box(*self),
    {
        let c = self.center;
        let rad = self.radius as i64;
        Aabb::new(
            [c[0] as i64 - rad, c[1] as i64 - rad, c[2] as i64 - rad],
            [c[0] as i64 + rad, c[1] as i64 + rad, c[2] as i64 + rad],
        )
    }
}

/// A cuboid: the cube from -1 to 1 on each axis, placed in the world by an
/// object-to-world transform. The transform is stored column by column; the
/// fourth column is the translation.
#[derive(Clone, Copy, Debug, PartialEq, Eq)]
pub struct Cuboid {
    /// Index of the material in the scene.
    pub material_index: u32,
    /// Object to world transform.
    pub txi: [[i32; 4]; 4],
}

pub open spec fn abs_i32(x: i32) -> int {
    if x < 0 { -x } else { x as int }
}

/// Half the extent, along world axis `i`, of the box around the cuboid.
pub open spec fn cuboid_extent(c: Cuboid, i: int) -> int {
    abs_i32(c.txi[0][i]) + abs_i32(c.txi[1][i]) + abs_i32(c.txi[2][i])
}

/// The box of a cuboid: its translation less and plus, on each axis, the
/// sum of the absolute values of the linear part's row.
pub open spec fn cuboid_box(c: Cuboid) -> Aabb {
    Aabb {
        min: [
            (c.txi[3][0] - cuboid_extent(c, 0)) as i64,
            (c.txi[3][1] - cuboid_extent(c, 1)) as i64,
            (c.txi[3][2] - cuboid_extent(c, 2)) as i64,
        ],
        max: [
            (c.txi[3][0] + cuboid_extent(c, 0)) as i64,
            (c.txi[3][1] + cuboid_extent(c, 1)) as i64,
            (c.txi[3][2] + cuboid_extent(c, 2)) as i64,
        ],
    }
}

pub open spec fn cuboid_placeholder() -> Cuboid {
    Cuboid { material_index: NULL_INDEX, txi: [[0, 0, 0, 0], [0, 0, 0, 0], [0, 0, 0, 0], [0, 0, 0, 0]] }
}

fn abs_wide(x: i32) -> (r: i64)
    ensures
        r == abs_i32(x),
{
    if x < 0 {
        -(x as i64)
    } else {
        x as i64
    }
}

impl Cuboid {
    pub fn new(txi: [[i32; 4]; 4], material_index: u32) -> (r: Cuboid)
        ensures
            r == (Cuboid { material_index, txi }),
    {
        Cuboid { material_index, txi }
    }

    /// The placeholder cuboid: zero transform, no material.
    pub fn empty() -> (r: Cuboid)
        ensures
            r == cuboid_placeholder(),
    {
        let z: [i32; 4] = [0, 0, 0, 0];
        Cuboid { material_index: NULL_INDEX, txi: [z, z, z, z] }
    }

    fn extent(&self, i: usize) -> (r: i64)
        requires
            i < 3,
        ensures
            r == cuboid_extent(*self, i as int),
    {
        abs_wide(self.txi[0][i]) + abs_wide(self.txi[1][i]) + abs_wide(self.txi[2][i])
    }

    pub fn bounding_box(&self) -> (r: Aabb)
        ensures
            r == cuboid_box(*self),
    {
        let e0 = self.extent(0);
        let e1 = self.extent(1);
        let e2 = self.extent(2);
        let p = self.txi[3];
        Aabb::new(
            [p[0] as i64 - e0, p[1] as i64 - e1, p[2] as i64 - e2],
            [p[0] as i64 + e0, p[1] as i64 + e1, p[2] as i64 + e2],
        )
    }
}

/// A vertex of the shared triangle vertex array.
#[derive(Clone, Copy, Debug, PartialEq, Eq)]
pub struct TriangleVertex {
    pub position: [i32; 3],
}

impl TriangleVertex {
    pub fn new(position: [i32; 3]) -> (r: TriangleVertex)
        ensures
            r.position == position,
    {
        TriangleVertex { position }
    }

    pub fn empty() -> (r: TriangleVertex)
        ensures
            r == (TriangleVertex { position: [0, 0, 0] }),
    {
        TriangleVertex { position: [0, 0, 0] }
    }
}

/// A triangle: three indices into the scene's triangle vertex array.
#[derive(Clone, Copy, Debug, PartialEq, Eq)]
pub struct Triangle {
    pub material_index: u32,
    pub indices: [u32; 3],
}

impl Triangle {
    pub fn new(material_index: u32, indices: [u32; 3]) -> (r: Triangle)
        ensures
            r == (Triangle { material_index, indices }),
    {
        Triangle { material_index, indices }
    }

    /// The placeholder triangle: all three corners at vertex 0, no material.
    pub fn empty() -> (r: Triangle)
        ensures
            r == (Triangle { material_index: NULL_INDEX, indices: [0, 0, 0] }),
    {
        Triangle { material_index: NULL_INDEX, indices: [0, 0, 0] }
    }
}

pub open spec fn min3(a: i32, b: i32, c: i32) -> i64 {
    (if a <= b && a <= c { a } else if b <= c { b } else { c }) as i64
}

pub open spec fn max3(a: i32, b: i32, c: i32) -> i64 {
    (if a >= b && a >= c { a } else if b >= c { b } else { c }) as i64
}

/// The box of three points: componentwise minimum and maximum.
pub open spec fn points_box(p: [i32; 3], q: [i32; 3], s: [i32; 3]) -> Aabb {
    Aabb {
        min: [min3(p[0], q[0], s[0]), min3(p[1], q[1], s[1]), min3(p[2], q[2], s[2])],
        max: [max3(p[0], q[0], s[0]), max3(p[1], q[1], s[1]), max3(p[2], q[2], s[2])],
    }
}

pub fn min3_exec(a: i32, b: i32, c: i32) -> (r: i64)
    ensures
        r == min3(a, b, c),
{
    (if a <= b && a <= c {
        a
    } else if b <= c {
        b
    } else {
        c
    }) as i64
}

pub fn max3_exec(a: i32, b: i32, c: i32) -> (r: i64)
    ensures
        r == max3(a, b, c),
{
    (if a >= b && a >= c {
        a
    } else if b >= c {
        b
    } else {
        c
    }) as i64
}

/// A participating medium of constant density inside a sphere or cuboid of
/// the scene, which it names by kind and index.
#[derive(Clone, Copy, Debug, PartialEq, Eq)]
pub struct LinearConstantMedium {
    /// Kind of the boundary: 1 for a sphere, 2 for a cuboid.
    pub boundary_geometry_type: u32,
    /// Index of the boundary in the array of its kind.
    pub boundary_scene_index: u32,
    /// Index of the phase-function material in the scene.
    pub material_index: u32,
    /// Density of the medium, in thousandths.
    pub density: u32,
}

pub open spec fn medium_placeholder() -> LinearConstantMedium {
    LinearConstantMedium {
        boundary_geometry_type: NULL_INDEX,
        boundary_scene_index: NULL_INDEX,
        material_index: NULL_INDEX,
        density: 0,
    }
}

impl LinearConstantMedium {
    pub fn new(
        boundary_geometry_type: u32,
        boundary_scene_index: u32,
        material_index: u32,
        density: u32,
    ) -> (r: LinearConstantMedium)
        ensures
            r == (LinearConstantMedium {
                boundary_geometry_type,
                boundary_scene_index,
                material_index,
                density,
            }),
    {
        LinearConstantMedium { boundary_geometry_type, boundary_scene_index, material_index, density }
    }

    /// The placeholder medium: every index null, zero density.
    pub fn empty() -> (r: LinearConstantMedium)
        ensures
            r == medium_placeholder(),
    {
        LinearConstantMedium {
            boundary_geometry_type: NULL_INDEX,
            boundary_scene_index: NULL_INDEX,
            material_index: NULL_INDEX,
            density: 0,
        }
    }
}

/// A node of the flattened hierarchy. Its children are positions in the
/// scene's hittable array; `NULL_INDEX` marks an absent child.
#[derive(Clone, Copy, Debug, PartialEq, Eq)]
pub struct BvhNode {
    pub left_hittable: u32,
    pub right_hittable: u32,
    pub aabb: Aabb,
}

impl BvhNode {
    pub fn new(left_hittable: u32, right_hittable: u32, aabb: Aabb) -> (r: BvhNode)
        ensures
            r == (BvhNode { left_hittable, right_hittable, aabb }),
    {
        BvhNode { left_hittable, right_hittable, aabb }
    }

    /// A node with no children and the placeholder box.
    pub fn empty() -> (r: BvhNode)
        ensures
            r == (BvhNode {
                left_hittable: NULL_INDEX,
                right_hittable: NULL_INDEX,
                aabb: Aabb { min: [0, 0, 0], max: [0, 0, 0] },
            }),
    {
        BvhNode { left_hittable: NULL_INDEX, right_hittable: NULL_INDEX, aabb: Aabb::empty() }
    }

    pub fn null_hittable_ptr() -> (r: u32)
        ensures
            r == NULL_INDEX,
    {
        NULL_INDEX
    }

    pub fn set_left(&mut self, left: u32)
        ensures
            *final(self) == (BvhNode { left_hittable: left, ..*old(self) }),
    {
        self.left_hittable = left;
    }

    pub fn set_right(&mut self, right: u32)
        ensures
            *final(self) == (BvhNode { right_hittable: right, ..*old(self) }),
    {
        self.right_hittable = right;
    }

    pub fn bounding_box(&self) -> (r: Aabb)
        ensures
            r == self.aabb,
    {
        self.aabb
    }
}

} // verus!
