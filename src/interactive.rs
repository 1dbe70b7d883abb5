use vstd::prelude::*;

use crate::aabb::contains;
use crate::construction_node::{bfs_layout, built_nodes, flat_leaves, flat_nodes, flat_wf};
use crate::construction_scene::{leaves_valid, recompute_bvh};
use crate::hierarchy::lemma_root_contains;
use crate::primitives::{cuboid_box, Cuboid, Sphere, NULL_INDEX};
use crate::scene::{hittable_box, is_leaf, leaf_valid, LinearHittable, LinearSceneBvh, CUBOID, SPHERE};

verus! {

/// Row `r` of the translation column of `t` composed with a translation by
/// `d` applied first: `t[0][r]*d[0] + t[1][r]*d[1] + t[2][r]*d[2] + t[3][r]`.
pub open spec fn translated_entry(t: [[i32; 4]; 4], d: [i32; 3], r: int) -> int {
    t[0][r] * d[0] + t[1][r] * d[1] + t[2][r] * d[2] + t[3][r]
}

pub open spec fn fits_i32(x: int) -> bool {
    i32::MIN <= x <= i32::MAX
}

/// The composed transform is representable.
pub open spec fn cuboid_translation_fits(c: Cuboid, d: [i32; 3]) -> bool {
    &&& fits_i32(translated_entry(c.txi, d, 0))
    &&& fits_i32(translated_entry(c.txi, d, 1))
    &&& fits_i32(translated_entry(c.txi, d, 2))
    &&& fits_i32(translated_entry(c.txi, d, 3))
}

/// The cuboid with its object-to-world transform `T` replaced by `T ∘ Δ`,
/// where `Δ` translates by `d`: the linear columns stay, the translation
/// column becomes `T · (d, 1)`.
pub open spec fn translated_cuboid(c: Cuboid, d: [i32; 3]) -> Cuboid {
    Cuboid {
        material_index: c.material_index,
        txi: [
            c.txi[0],
            c.txi[1],
            c.txi[2],
            [
                translated_entry(c.txi, d, 0) as i32,
                translated_entry(c.txi, d, 1) as i32,
                translated_entry(c.txi, d, 2) as i32,
                translated_entry(c.txi, d, 3) as i32,
            ],
        ],
    }
}

/// The moved centre is representable.
pub open spec fn sphere_translation_fits(s: Sphere, d: [i32; 3]) -> bool {
    &&& fits_i32(s.center[0] + d[0])
    &&& fits_i32(s.center[1] + d[1])
    &&& fits_i32(s.center[2] + d[2])
}

/// The sphere with its centre moved by `d`.
pub open spec fn translated_sphere(s: Sphere, d: [i32; 3]) -> Sphere {
    Sphere {
        center: [
            (s.center[0] + d[0]) as i32,
            (s.center[1] + d[1]) as i32,
            (s.center[2] + d[2]) as i32,
        ],
        ..s
    }
}

/// `h` names a sphere or cuboid of `s` that can be moved by `d`.
pub open spec fn can_translate(s: &LinearSceneBvh, h: LinearHittable, d: [i32; 3]) -> bool {
    let i = h.scene_index as int;
    ||| h.geometry_type == SPHERE && i < s.spheres@.len() && sphere_translation_fits(s.spheres@[i], d)
    ||| h.geometry_type == CUBOID && i < s.cuboids@.len() && cuboid_translation_fits(s.cuboids@[i], d)
}

/// `b` is `a` with the sphere or cuboid that `h` names moved by `d`; nothing
/// else of the primitives changed.
pub open spec fn translated_in(a: &LinearSceneBvh, b: &LinearSceneBvh, h: LinearHittable, d: [i32; 3]) -> bool {
    let i = h.scene_index as int;
    &&& b.materials@ == a.materials@
    &&& b.constant_mediums@ == a.constant_mediums@
    &&& b.tri_verts@ == a.tri_verts@
    &&& b.tris@ == a.tris@
    &&& b.spheres@ == if h.geometry_type == SPHERE {
        a.spheres@.update(i, translated_sphere(a.spheres@[i], d))
    } else {
        a.spheres@
    }
    &&& b.cuboids@ == if h.geometry_type == CUBOID {
        a.cuboids@.update(i, translated_cuboid(a.cuboids@[i], d))
    } else {
        a.cuboids@
    }
}

fn translated_entry_exec(t: &[[i32; 4]; 4], d: &[i32; 3], r: usize) -> (x: i128)
    requires
        r < 4,
    ensures
        x == translated_entry(*t, *d, r as int),
{
    let a = t[0][r] as i128;
    let b = t[1][r] as i128;
    let c = t[2][r] as i128;
    let p = d[0] as i128;
    let q = d[1] as i128;
    let s = d[2] as i128;
    proof {
        assert(-0x8000_0000 <= a <= 0x7fff_ffff && -0x8000_0000 <= p <= 0x7fff_ffff);
        assert(-0x4000_0000_0000_0000 <= a * p <= 0x4000_0000_0000_0000) by (nonlinear_arith)
            requires
                -0x8000_0000 <= a <= 0x7fff_ffff,
                -0x8000_0000 <= p <= 0x7fff_ffff,
        ;
        assert(-0x4000_0000_0000_0000 <= b * q <= 0x4000_0000_0000_0000) by (nonlinear_arith)
            requires
                -0x8000_0000 <= b <= 0x7fff_ffff,
                -0x8000_0000 <= q <= 0x7fff_ffff,
        ;
        assert(-0x4000_0000_0000_0000 <= c * s <= 0x4000_0000_0000_0000) by (nonlinear_arith)
            requires
                -0x8000_0000 <= c <= 0x7fff_ffff,
                -0x8000_0000 <= s <= 0x7fff_ffff,
        ;
    }
    a * p + b * q + c * s + t[3][r] as i128
}

impl Cuboid {
    /// Composes the object-to-world transform with a translation by `d`
    /// applied first.
    pub fn transform_txi_by(&mut self, d: [i32; 3])
        requires
            cuboid_translation_fits(*old(self), d),
        ensures
            *final(self) == translated_cuboid(*old(self), d),
    {
        let x = translated_entry_exec(&self.txi, &d, 0) as i32;
        let y = translated_entry_exec(&self.txi, &d, 1) as i32;
        let z = translated_entry_exec(&self.txi, &d, 2) as i32;
        let w = translated_entry_exec(&self.txi, &d, 3) as i32;
        self.txi = [self.txi[0], self.txi[1], self.txi[2], [x, y, z, w]];
    }
}

impl LinearHittable {
    /// Moves the sphere or cuboid this refers to by `d`: a sphere's centre
    /// is moved, a cuboid's transform is composed with the translation.
    pub fn transform_by(&self, scene: &mut LinearSceneBvh, d: [i32; 3])
        requires
            can_translate(old(scene), *self, d),
        ensures
            translated_in(old(scene), final(scene), *self, d),
            final(scene).hittables@ == old(scene).hittables@,
            final(scene).bvh_nodes@ == old(scene).bvh_nodes@,
    {
        let i = self.get_scene_index();
        if self.geometry_type == SPHERE {
            let mut s = scene.spheres[i];
            s.center = [s.center[0] + d[0], s.center[1] + d[1], s.center[2] + d[2]];
            scene.spheres.set(i, s);
        } else {
            let mut c = scene.cuboids[i];
            c.transform_txi_by(d);
            scene.cuboids.set(i, c);
        }
    }
}

impl LinearSceneBvh {
    /// Moves the sphere or cuboid that `hittable` names by `d`, then rebuilds
    /// the hierarchy over the scene's primitives.
    pub fn transform_hittable_by(&mut self, hittable: &LinearHittable, d: [i32; 3])
        requires
            can_translate(old(self), *hittable, d),
            flat_leaves(old(self).hittables@).len() >= 1,
            leaves_valid(old(self), old(self).hittables@),
            3 * old(self).hittables@.len() < NULL_INDEX,
        ensures
            translated_in(old(self), final(self), *hittable, d),
            flat_wf(final(self)),
            bfs_layout(final(self)),
            flat_leaves(final(self).hittables@) == flat_leaves(old(self).hittables@),
            flat_nodes(final(self).hittables@) == built_nodes(flat_leaves(old(self).hittables@).len()),
            final(self).bvh_nodes@.len() == built_nodes(flat_leaves(old(self).hittables@).len()),
    {
        let ghost s0 = *old(self);
        hittable.transform_by(self, d);
        proof {
            assert forall|k: int|
                0 <= k < self.hittables@.len() && is_leaf(#[trigger] self.hittables@[k]) implies leaf_valid(
                self,
                self.hittables@[k],
            ) by {
                assert(leaf_valid(&s0, s0.hittables@[k]));
            }
        }
        recompute_bvh(self);
    }
}

/// The primitive that interactive input moves.
#[derive(Clone, Copy, Debug)]
pub struct InteractiveSection {
    pub hittable: LinearHittable,
}

impl InteractiveSection {
    pub fn new(hittable: LinearHittable) -> (r: InteractiveSection)
        ensures
            r.hittable == hittable,
    {
        InteractiveSection { hittable }
    }

    /// Moves the selected primitive by `dz` along z and rebuilds the
    /// hierarchy. The caller then resets the accumulated image.
    pub fn translate(&self, scene: &mut LinearSceneBvh, dz: i32)
        requires
            can_translate(old(scene), self.hittable, [0, 0, dz]),
            flat_leaves(old(scene).hittables@).len() >= 1,
            leaves_valid(old(scene), old(scene).hittables@),
            3 * old(scene).hittables@.len() < NULL_INDEX,
        ensures
            translated_in(old(scene), final(scene), self.hittable, [0, 0, dz]),
            flat_wf(final(scene)),
            bfs_layout(final(scene)),
            flat_leaves(final(scene).hittables@) == flat_leaves(old(scene).hittables@),
    {
        scene.transform_hittable_by(&self.hittable, [0, 0, dz]);
    }
}

pub proof fn lemma_flat_leaves_in(h: Seq<LinearHittable>, x: LinearHittable)
    requires
        flat_leaves(h).count(x) > 0,
    ensures
        exists|d: int| 0 <= d < h.len() && h[d] == x,
    decreases h.len(),
{
    if h.len() > 0 {
        if h.last() == x {
            assert(h[h.len() - 1] == x);
        } else {
            lemma_flat_leaves_in(h.drop_last(), x);
            let d = choose|d: int| 0 <= d < h.drop_last().len() && h.drop_last()[d] == x;
            assert(h[d] == x);
        }
    }
}

/// After a cuboid of the scene is moved by `d` and the hierarchy rebuilt,
/// the cuboid's transform is its old one composed with the translation, and
/// the root's box encloses the moved cuboid's box.
pub proof fn lemma_moved_cuboid_enclosed(
    a: &LinearSceneBvh,
    b: &LinearSceneBvh,
    h: LinearHittable,
    d: [i32; 3],
)
    requires
        a.hittables@.contains(h),
        h.geometry_type == CUBOID,
        h.scene_index < a.cuboids@.len(),
        translated_in(a, b, h, d),
        flat_wf(b),
        flat_leaves(b.hittables@) == flat_leaves(a.hittables@),
    ensures
        b.cuboids@[h.scene_index as int] == translated_cuboid(a.cuboids@[h.scene_index as int], d),
        contains(hittable_box(b, b.hittables@[0]), cuboid_box(b.cuboids@[h.scene_index as int])),
{
    let p = choose|p: int| 0 <= p < a.hittables@.len() && a.hittables@[p] == h;
    lemma_flat_leaves_count(a.hittables@, p);
    lemma_flat_leaves_in(b.hittables@, h);
    let q = choose|q: int| 0 <= q < b.hittables@.len() && b.hittables@[q] == h;
    lemma_root_contains(b, q);
}

proof fn lemma_flat_leaves_count(h: Seq<LinearHittable>, p: int)
    requires
        0 <= p < h.len(),
        is_leaf(h[p]),
    ensures
        flat_leaves(h).count(h[p]) > 0,
    decreases h.len(),
{
    if p < h.len() - 1 {
        lemma_flat_leaves_count(h.drop_last(), p);
    }
}

} // verus!
