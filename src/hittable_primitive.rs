use vstd::prelude::*;

use crate::primitives::{Cuboid, Sphere, Triangle, TriangleVertex};

verus! {

/// A participating medium as authored: a boundary primitive (a sphere or a
/// cuboid), the phase-function material and the density.
#[derive(Debug)]
pub struct ConstantMedium {
    pub boundary_hittable: Box<HittablePrimitive>,
    /// Index of the phase-function material in the scene.
    pub material_index: u32,
    /// Density of the medium, in thousandths.
    pub density: u32,
}

/// A triangle mesh: vertex positions and triples of indices into them.
#[derive(Debug)]
pub struct Mesh {
    pub vertices: Vec<TriangleVertex>,
    pub faces: Vec<[u32; 3]>,
    pub material_index: u32,
}

/// A primitive as authored, before it is stored in the scene's arrays.
#[derive(Debug)]
pub enum HittablePrimitive {
    Sphere(Sphere),
    Cuboid(Cuboid),
    ConstantMedium(ConstantMedium),
    Mesh(Mesh),
}

/// Every face of the mesh names existing vertices.
pub open spec fn mesh_valid(m: &Mesh) -> bool {
    forall|k: int|
        0 <= k < m.faces@.len() ==> {
            &&& (#[trigger] m.faces@[k])[0] < m.vertices@.len()
            &&& m.faces@[k][1] < m.vertices@.len()
            &&& m.faces@[k][2] < m.vertices@.len()
        }
}

/// The triangles of a mesh, each with the mesh's material.
pub open spec fn mesh_triangles(m: &Mesh) -> Seq<Triangle> {
    Seq::new(
        m.faces@.len(),
        |k: int| Triangle { material_index: m.material_index, indices: m.faces@[k] },
    )
}

impl Mesh {
    pub fn new(vertices: Vec<TriangleVertex>, faces: Vec<[u32; 3]>, material_index: u32) -> (r: Mesh)
        ensures
            r.vertices@ == vertices@,
            r.faces@ == faces@,
            r.material_index == material_index,
    {
        Mesh { vertices, faces, material_index }
    }

    /// The mesh's vertices and its triangles.
    pub fn get_default_first_mesh(&self) -> (r: (Vec<TriangleVertex>, Vec<Triangle>))
        ensures
            r.0@ == self.vertices@,
            r.1@ == mesh_triangles(self),
    {
        let mut verts: Vec<TriangleVertex> = Vec::new();
        let mut i: usize = 0;
        while i < self.vertices.len()
            invariant
                i <= self.vertices@.len(),
                verts@ == self.vertices@.subrange(0, i as int),
            decreases self.vertices@.len() - i,
        {
            verts.push(self.vertices[i]);
            i = i + 1;
            assert(verts@ =~= self.vertices@.subrange(0, i as int));
        }
        let mut tris: Vec<Triangle> = Vec::new();
        let mut k: usize = 0;
        while k < self.faces.len()
            invariant
                k <= self.faces@.len(),
                tris@ == mesh_triangles(self).subrange(0, k as int),
            decreases self.faces@.len() - k,
        {
            tris.push(Triangle::new(self.material_index, self.faces[k]));
            k = k + 1;
            assert(tris@ =~= mesh_triangles(self).subrange(0, k as int));
        }
        assert(verts@ =~= self.vertices@);
        assert(tris@ =~= mesh_triangles(self));
        (verts, tris)
    }
}

} // verus!
