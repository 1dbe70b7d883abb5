use vstd::prelude::*;

use crate::construction_node::{
    all_leaves_in, bfs_layout, built_nodes, left_of, right_of, flat_leaves, flat_nodes, flat_wf, is_hull, lemma_hull_frame, lemma_hull_unique, has_parent, is_child, node_children_ok, lemma_built_nodes_bound, lemma_tree_size_split, tree_leaves,
    SceneBvhConstructionNode,
};
use crate::hittable_primitive::{mesh_valid, ConstantMedium, HittablePrimitive, Mesh};
use crate::primitives::{
    cuboid_placeholder, medium_placeholder, sphere_placeholder, Cuboid,
    LinearConstantMedium, Material, Sphere, Triangle, TriangleVertex, NULL_INDEX,
};
use crate::scene::{
    hittable_box, is_leaf, leaf_valid, padded, same_geometry, LinearHittable, LinearSceneBvh, BVH_NODE,
    CONSTANT_MEDIUM, CUBOID, SPHERE, TRIANGLE,
};

verus! {

/// Every primitive among `h` exists in `s`.
pub open spec fn leaves_valid(s: &LinearSceneBvh, h: Seq<LinearHittable>) -> bool {
    forall|k: int| 0 <= k < h.len() && is_leaf(#[trigger] h[k]) ==> leaf_valid(s, h[k])
}

/// `s1` is `s0` with its hierarchy rebuilt over the primitives of `s0`'s
/// hittable array.
pub open spec fn rebuilt_from(s0: &LinearSceneBvh, s1: &LinearSceneBvh) -> bool {
    let n = flat_leaves(s0.hittables@).len();
    &&& same_geometry(s0, s1)
    &&& flat_wf(s1)
    &&& bfs_layout(s1)
    &&& flat_leaves(s1.hittables@) == flat_leaves(s0.hittables@)
    &&& flat_nodes(s1.hittables@) == built_nodes(n)
    &&& s1.bvh_nodes@.len() == built_nodes(n)
    &&& s1.hittables@.len() == n + built_nodes(n)
    &&& !is_leaf(s1.hittables@[0])
    &&& is_hull(s1, hittable_box(s1, s1.hittables@[0]), flat_leaves(s1.hittables@))
}

pub proof fn lemma_flat_leaves_are_leaves(h: Seq<LinearHittable>)
    ensures
        all_leaves_in(flat_leaves(h)),
    decreases h.len(),
{
    if h.len() > 0 {
        lemma_flat_leaves_are_leaves(h.drop_last());
    }
}

/// Rebuilding twice in a row, with nothing changed in between, gives the same
/// primitives at the leaves, the same number of nodes and the same root box.
pub proof fn lemma_rebuild_idempotent(s0: &LinearSceneBvh, s1: &LinearSceneBvh, s2: &LinearSceneBvh)
    requires
        rebuilt_from(s0, s1),
        rebuilt_from(s1, s2),
    ensures
        same_geometry(s1, s2),
        flat_leaves(s2.hittables@) == flat_leaves(s1.hittables@),
        s2.bvh_nodes@.len() == s1.bvh_nodes@.len(),
        s2.hittables@.len() == s1.hittables@.len(),
        hittable_box(s2, s2.hittables@[0]) == hittable_box(s1, s1.hittables@[0]),
{
    lemma_flat_leaves_are_leaves(s1.hittables@);
    lemma_hull_unique(
        s1,
        s2,
        hittable_box(s1, s1.hittables@[0]),
        hittable_box(s2, s2.hittables@[0]),
        flat_leaves(s1.hittables@),
    );
}

/// Rebuilds the hierarchy from scratch: drops every node entry and node
/// hittable, builds a new tree over the remaining primitives and flattens it
/// into the scene. The primitive arrays are left as they are.
pub fn recompute_bvh(scene: &mut LinearSceneBvh)
    requires
        flat_leaves(old(scene).hittables@).len() >= 1,
        leaves_valid(old(scene), old(scene).hittables@),
        3 * old(scene).hittables@.len() < NULL_INDEX,
    ensures
        rebuilt_from(old(scene), final(scene)),
{
    let ghost s0 = *old(scene);
    scene.bvh_nodes.clear();
    let mut leaves: Vec<LinearHittable> = Vec::new();
    let mut i: usize = 0;
    proof {
        assert(s0.hittables@.subrange(0, 0) =~= Seq::<LinearHittable>::empty());
        assert(leaves@.to_multiset() =~= vstd::multiset::Multiset::empty()) by {
            broadcast use vstd::seq_lib::group_to_multiset_ensures;
        }
    }
    while i < scene.hittables.len()
        invariant
            scene.hittables@ == s0.hittables@,
            same_geometry(&s0, scene),
            leaves_valid(&s0, s0.hittables@),
            i <= scene.hittables@.len(),
            leaves@.to_multiset() == flat_leaves(s0.hittables@.subrange(0, i as int)),
            forall|k: int| 0 <= k < leaves@.len() ==> leaf_valid(scene, #[trigger] leaves@[k]),
            leaves@.len() <= i,
        decreases scene.hittables@.len() - i,
    {
        let h = scene.hittables[i];
        proof {
            broadcast use vstd::seq_lib::group_to_multiset_ensures;

            assert(s0.hittables@.subrange(0, i + 1).drop_last() =~= s0.hittables@.subrange(
                0,
                i as int,
            ));
        }
        if h.geometry_type != BVH_NODE {
            proof {
                assert(h == s0.hittables@[i as int]);
                assert(leaf_valid(&s0, h));
            }
            leaves.push(h);
        }
        i = i + 1;
    }
    proof {
        broadcast use vstd::seq_lib::group_to_multiset_ensures;

        assert(s0.hittables@.subrange(0, i as int) =~= s0.hittables@);
        lemma_built_nodes_bound(leaves@.len());
    }
    scene.hittables = leaves.clone();
    let root = SceneBvhConstructionNode::new(scene, leaves.as_slice());
    let ghost s_built = *scene;
    proof {
        lemma_tree_size_split(root);
    }
    root.flatten(scene);
    proof {
        assert(hittable_box(scene, root.hittable) == hittable_box(&s_built, root.hittable));
        lemma_flat_leaves_are_leaves(s0.hittables@);
        lemma_hull_frame(&s_built, scene, hittable_box(&s_built, root.hittable), tree_leaves(root));
    }
}

/// A medium's boundary is a sphere or a cuboid, and a mesh's faces name its
/// own vertices.
pub open spec fn primitive_ok(p: HittablePrimitive) -> bool {
    match p {
        HittablePrimitive::ConstantMedium(m) => {
            ||| *m.boundary_hittable is Sphere
            ||| *m.boundary_hittable is Cuboid
        },
        HittablePrimitive::Mesh(m) => mesh_valid(&m),
        _ => true,
    }
}

/// The spheres a primitive adds: itself, or a medium's spherical boundary.
pub open spec fn prim_spheres(p: HittablePrimitive) -> Seq<Sphere> {
    match p {
        HittablePrimitive::Sphere(s) => seq![s],
        HittablePrimitive::ConstantMedium(m) => match *m.boundary_hittable {
            HittablePrimitive::Sphere(s) => seq![s],
            _ => seq![],
        },
        _ => seq![],
    }
}

/// The cuboids a primitive adds: itself, or a medium's cuboid boundary.
pub open spec fn prim_cuboids(p: HittablePrimitive) -> Seq<Cuboid> {
    match p {
        HittablePrimitive::Cuboid(c) => seq![c],
        HittablePrimitive::ConstantMedium(m) => match *m.boundary_hittable {
            HittablePrimitive::Cuboid(c) => seq![c],
            _ => seq![],
        },
        _ => seq![],
    }
}

/// The vertices a primitive adds: a mesh's own.
pub open spec fn prim_vertices(p: HittablePrimitive) -> Seq<TriangleVertex> {
    match p {
        HittablePrimitive::Mesh(m) => m.vertices@,
        _ => seq![],
    }
}

pub open spec fn all_spheres(ps: Seq<HittablePrimitive>) -> Seq<Sphere>
    decreases ps.len(),
{
    if ps.len() == 0 {
        seq![]
    } else {
        all_spheres(ps.drop_last()) + prim_spheres(ps.last())
    }
}

pub open spec fn all_cuboids(ps: Seq<HittablePrimitive>) -> Seq<Cuboid>
    decreases ps.len(),
{
    if ps.len() == 0 {
        seq![]
    } else {
        all_cuboids(ps.drop_last()) + prim_cuboids(ps.last())
    }
}

pub open spec fn all_vertices(ps: Seq<HittablePrimitive>) -> Seq<TriangleVertex>
    decreases ps.len(),
{
    if ps.len() == 0 {
        seq![]
    } else {
        all_vertices(ps.drop_last()) + prim_vertices(ps.last())
    }
}

/// The media a primitive adds after the primitives `before`: a medium whose
/// boundary is the sphere or cuboid stored just before it.
pub open spec fn prim_mediums(before: Seq<HittablePrimitive>, p: HittablePrimitive) -> Seq<
    LinearConstantMedium,
> {
    match p {
        HittablePrimitive::ConstantMedium(m) => seq![
            LinearConstantMedium {
                boundary_geometry_type: if *m.boundary_hittable is Sphere {
                    SPHERE
                } else {
                    CUBOID
                },
                boundary_scene_index: (if *m.boundary_hittable is Sphere {
                    all_spheres(before).len()
                } else {
                    all_cuboids(before).len()
                }) as u32,
                material_index: m.material_index,
                density: m.density,
            },
        ],
        _ => seq![],
    }
}

pub open spec fn all_mediums(ps: Seq<HittablePrimitive>) -> Seq<LinearConstantMedium>
    decreases ps.len(),
{
    if ps.len() == 0 {
        seq![]
    } else {
        all_mediums(ps.drop_last()) + prim_mediums(ps.drop_last(), ps.last())
    }
}

/// A face whose indices are moved by `off`.
pub open spec fn offset_face(f: [u32; 3], off: int) -> [u32; 3] {
    [(f[0] + off) as u32, (f[1] + off) as u32, (f[2] + off) as u32]
}

/// The triangles a primitive adds after the primitives `before`: a mesh's
/// faces, with indices moved past the vertices already stored.
pub open spec fn prim_triangles(before: Seq<HittablePrimitive>, p: HittablePrimitive) -> Seq<
    Triangle,
> {
    match p {
        HittablePrimitive::Mesh(m) => Seq::new(
            m.faces@.len(),
            |k: int|
                Triangle {
                    material_index: m.material_index,
                    indices: offset_face(m.faces@[k], all_vertices(before).len() as int),
                },
        ),
        _ => seq![],
    }
}

pub open spec fn all_triangles(ps: Seq<HittablePrimitive>) -> Seq<Triangle>
    decreases ps.len(),
{
    if ps.len() == 0 {
        seq![]
    } else {
        all_triangles(ps.drop_last()) + prim_triangles(ps.drop_last(), ps.last())
    }
}

/// The hittables a primitive adds after the primitives `before`: one per
/// sphere, cuboid or medium, and one per mesh face, each naming the entry
/// stored for it.
pub open spec fn prim_leaves(before: Seq<HittablePrimitive>, p: HittablePrimitive) -> Seq<
    LinearHittable,
> {
    match p {
        HittablePrimitive::Sphere(_) => seq![
            LinearHittable { geometry_type: SPHERE, scene_index: all_spheres(before).len() as u32 },
        ],
        HittablePrimitive::Cuboid(_) => seq![
            LinearHittable { geometry_type: CUBOID, scene_index: all_cuboids(before).len() as u32 },
        ],
        HittablePrimitive::ConstantMedium(_) => seq![
            LinearHittable {
                geometry_type: CONSTANT_MEDIUM,
                scene_index: all_mediums(before).len() as u32,
            },
        ],
        HittablePrimitive::Mesh(m) => Seq::new(
            m.faces@.len(),
            |k: int|
                LinearHittable {
                    geometry_type: TRIANGLE,
                    scene_index: (all_triangles(before).len() + k) as u32,
                },
        ),
    }
}

pub open spec fn all_leaves(ps: Seq<HittablePrimitive>) -> Seq<LinearHittable>
    decreases ps.len(),
{
    if ps.len() == 0 {
        seq![]
    } else {
        all_leaves(ps.drop_last()) + prim_leaves(ps.drop_last(), ps.last())
    }
}

/// `r` is the scene built from `materials` and `ps`: the materials as given,
/// each primitive stored in the array of its kind in order (empty arrays
/// padded with a placeholder), and a flattened hierarchy over one hittable
/// per stored primitive.
pub open spec fn built_scene(
    materials: Seq<Material>,
    ps: Seq<HittablePrimitive>,
    r: &LinearSceneBvh,
) -> bool {
    let n = all_leaves(ps).len();
    &&& r.materials@ == materials
    &&& padded(all_spheres(ps), r.spheres@, sphere_placeholder())
    &&& padded(all_cuboids(ps), r.cuboids@, cuboid_placeholder())
    &&& padded(all_mediums(ps), r.constant_mediums@, medium_placeholder())
    &&& padded(all_vertices(ps), r.tri_verts@, TriangleVertex { position: [0, 0, 0] })
    &&& padded(
        all_triangles(ps),
        r.tris@,
        Triangle { material_index: NULL_INDEX, indices: [0, 0, 0] },
    )
    &&& flat_wf(r)
    &&& bfs_layout(r)
    &&& flat_leaves(r.hittables@) == all_leaves(ps).to_multiset()
    &&& flat_nodes(r.hittables@) == built_nodes(n)
    &&& r.bvh_nodes@.len() == built_nodes(n)
    &&& r.hittables@.len() == n + built_nodes(n)
}

/// Each array of `b` starts with the entries of the same array of `a`.
pub open spec fn arrays_grown(a: &LinearSceneBvh, b: &LinearSceneBvh) -> bool {
    &&& a.spheres@.is_prefix_of(b.spheres@)
    &&& a.cuboids@.is_prefix_of(b.cuboids@)
    &&& a.constant_mediums@.is_prefix_of(b.constant_mediums@)
    &&& a.tri_verts@.is_prefix_of(b.tri_verts@)
    &&& a.tris@.is_prefix_of(b.tris@)
    &&& a.bvh_nodes@.is_prefix_of(b.bvh_nodes@)
}

proof fn lemma_leaf_grown(a: &LinearSceneBvh, b: &LinearSceneBvh, h: LinearHittable)
    requires
        arrays_grown(a, b),
        leaf_valid(a, h),
    ensures
        leaf_valid(b, h),
        hittable_box(a, h) == hittable_box(b, h),
{
    let i = h.scene_index as int;
    if h.geometry_type == CONSTANT_MEDIUM {
        assert(b.constant_mediums@[i] == a.constant_mediums@[i]);
        let m = a.constant_mediums@[i];
        let j = m.boundary_scene_index as int;
        if m.boundary_geometry_type == SPHERE {
            assert(b.spheres@[j] == a.spheres@[j]);
        } else {
            assert(b.cuboids@[j] == a.cuboids@[j]);
        }
    } else if h.geometry_type == TRIANGLE {
        assert(b.tris@[i] == a.tris@[i]);
        let t = a.tris@[i];
        assert(b.tri_verts@[t.indices[0] as int] == a.tri_verts@[t.indices[0] as int]);
        assert(b.tri_verts@[t.indices[1] as int] == a.tri_verts@[t.indices[1] as int]);
        assert(b.tri_verts@[t.indices[2] as int] == a.tri_verts@[t.indices[2] as int]);
    } else if h.geometry_type == SPHERE {
        assert(b.spheres@[i] == a.spheres@[i]);
    } else {
        assert(b.cuboids@[i] == a.cuboids@[i]);
    }
}

/// A flattened hierarchy stays one when entries are appended to the arrays.
proof fn lemma_flat_grown(a: &LinearSceneBvh, b: &LinearSceneBvh)
    requires
        flat_wf(a),
        arrays_grown(a, b),
        a.hittables@ == b.hittables@,
    ensures
        flat_wf(b),
{
    assert forall|p: int| 0 <= p < b.hittables@.len() implies if is_leaf(
        #[trigger] b.hittables@[p],
    ) {
        leaf_valid(b, b.hittables@[p])
    } else {
        node_children_ok(b, p)
    } by {
        let h = a.hittables@[p];
        if is_leaf(h) {
            lemma_leaf_grown(a, b, h);
        } else {
            assert(node_children_ok(a, p));
            let i = h.scene_index as int;
            assert(b.bvh_nodes@[i] == a.bvh_nodes@[i]);
            let n = a.bvh_nodes@[i];
            let l = a.hittables@[n.left_hittable as int];
            assert(hittable_box(a, l) == hittable_box(b, l)) by {
                if is_leaf(l) {
                    assert(leaf_valid(a, l));
                    lemma_leaf_grown(a, b, l);
                } else {
                    assert(node_children_ok(a, n.left_hittable as int));
                    assert(b.bvh_nodes@[l.scene_index as int] == a.bvh_nodes@[l.scene_index as int]);
                }
            }
            if n.right_hittable != NULL_INDEX {
                let r = a.hittables@[n.right_hittable as int];
                assert(hittable_box(a, r) == hittable_box(b, r)) by {
                    if is_leaf(r) {
                        assert(leaf_valid(a, r));
                        lemma_leaf_grown(a, b, r);
                    } else {
                        assert(node_children_ok(a, n.right_hittable as int));
                        assert(b.bvh_nodes@[r.scene_index as int] == a.bvh_nodes@[r.scene_index
                            as int]);
                    }
                }
            }
        }
    }
    assert forall|c: int| 1 <= c < b.hittables@.len() implies #[trigger] has_parent(b, c) by {
        assert(has_parent(a, c));
        let p = choose|p: int| 0 <= p < c && #[trigger] is_child(a, p, c);
        assert(node_children_ok(a, p));
        let pi = a.hittables@[p].scene_index as int;
        assert(b.bvh_nodes@[pi] == a.bvh_nodes@[pi]);
        assert(is_child(b, p, c));
    }
}

/// The breadth-first layout stays when entries are appended to the arrays.
proof fn lemma_bfs_grown(a: &LinearSceneBvh, b: &LinearSceneBvh)
    requires
        flat_wf(a),
        bfs_layout(a),
        arrays_grown(a, b),
        a.hittables@ == b.hittables@,
    ensures
        bfs_layout(b),
{
    assert forall|p: int| 0 <= p < b.hittables@.len() && !is_leaf(b.hittables@[p]) implies b.bvh_nodes@[b.hittables@[p].scene_index as int]
        == a.bvh_nodes@[a.hittables@[p].scene_index as int] by {
        assert(node_children_ok(a, p));
    }
    assert forall|p: int|
        0 <= p < b.hittables@.len() && !is_leaf(b.hittables@[p]) implies #[trigger] right_of(b, p)
        == NULL_INDEX || right_of(b, p) == left_of(b, p) + 1 by {
        assert(right_of(a, p) == NULL_INDEX || right_of(a, p) == left_of(a, p) + 1);
    }
    assert forall|p: int, c: int|
        0 <= p < c < b.hittables@.len() && !is_leaf(b.hittables@[p]) && !is_leaf(b.hittables@[c])
        implies #[trigger] left_of(b, p) < #[trigger] left_of(b, c) by {
        assert(left_of(a, p) < left_of(a, c));
    }
}

proof fn lemma_flat_leaves_all(h: Seq<LinearHittable>)
    requires
        forall|k: int| 0 <= k < h.len() ==> is_leaf(#[trigger] h[k]),
    ensures
        flat_leaves(h) == h.to_multiset(),
    decreases h.len(),
{
    broadcast use vstd::seq_lib::group_to_multiset_ensures;

    if h.len() == 0 {
        assert(h.to_multiset() =~= vstd::multiset::Multiset::empty());
    } else {
        lemma_flat_leaves_all(h.drop_last());
        assert(h.drop_last().push(h.last()) =~= h);
    }
}

proof fn lemma_counts(ps: Seq<HittablePrimitive>)
    ensures
        all_spheres(ps).len() <= all_leaves(ps).len(),
        all_cuboids(ps).len() <= all_leaves(ps).len(),
        all_mediums(ps).len() <= all_leaves(ps).len(),
        all_triangles(ps).len() <= all_leaves(ps).len(),
    decreases ps.len(),
{
    if ps.len() > 0 {
        lemma_counts(ps.drop_last());
    }
}

proof fn lemma_prefix_counts(ps: Seq<HittablePrimitive>, i: int)
    requires
        0 <= i <= ps.len(),
    ensures
        all_leaves(ps.subrange(0, i)).len() <= all_leaves(ps).len(),
        all_vertices(ps.subrange(0, i)).len() <= all_vertices(ps).len(),
    decreases ps.len(),
{
    if i < ps.len() {
        lemma_prefix_counts(ps.drop_last(), i);
        assert(ps.drop_last().subrange(0, i) =~= ps.subrange(0, i));
    } else {
        assert(ps.subrange(0, i) =~= ps);
    }
}

/// Builds a scene from materials and authored primitives: stores each
/// primitive in the array of its kind (a medium's boundary first, then the
/// medium; a mesh's vertices, then one triangle per face with indices moved
/// past the vertices already stored), builds and flattens the hierarchy over
/// one hittable per stored primitive, and pads the arrays that stayed empty.
pub fn build_from_hittable_primitives(materials: &[Material], primitives: &[HittablePrimitive]) -> (r:
    LinearSceneBvh)
    requires
        materials@.len() >= 1,
        all_leaves(primitives@).len() >= 1,
        forall|k: int| 0 <= k < primitives@.len() ==> primitive_ok(#[trigger] primitives@[k]),
        3 * all_leaves(primitives@).len() < NULL_INDEX,
        all_vertices(primitives@).len() < NULL_INDEX,
    ensures
        built_scene(materials@, primitives@, &r),
{
    let ghost ps = primitives@;
    let mut scene = LinearSceneBvh::new();
    scene.materials = vstd::slice::slice_to_vec(materials);
    let mut i: usize = 0;
    proof {
        assert(ps.subrange(0, 0) =~= Seq::<HittablePrimitive>::empty());
    }
    while i < primitives.len()
        invariant
            ps == primitives@,
            i <= ps.len(),
            forall|k: int| 0 <= k < ps.len() ==> primitive_ok(#[trigger] ps[k]),
            3 * all_leaves(ps).len() < NULL_INDEX,
            all_vertices(ps).len() < NULL_INDEX,
            scene.materials@ == materials@,
            scene.bvh_nodes@.len() == 0,
            scene.spheres@ == all_spheres(ps.subrange(0, i as int)),
            scene.cuboids@ == all_cuboids(ps.subrange(0, i as int)),
            scene.constant_mediums@ == all_mediums(ps.subrange(0, i as int)),
            scene.tri_verts@ == all_vertices(ps.subrange(0, i as int)),
            scene.tris@ == all_triangles(ps.subrange(0, i as int)),
            scene.hittables@ == all_leaves(ps.subrange(0, i as int)),
            forall|k: int|
                0 <= k < scene.hittables@.len() ==> is_leaf(#[trigger] scene.hittables@[k])
                    && leaf_valid(&scene, scene.hittables@[k]),
        decreases ps.len() - i,
    {
        let ghost pre = ps.subrange(0, i as int);
        let ghost sb = scene;
        proof {
            lemma_prefix_counts(ps, i + 1);
            lemma_counts(ps.subrange(0, i + 1));
            assert(ps.subrange(0, i + 1).drop_last() =~= pre);
            assert(ps.subrange(0, i + 1).last() == ps[i as int]);
        }
        match &primitives[i] {
            HittablePrimitive::Sphere(sphere) => {
                scene.spheres.push(*sphere);
                scene.hittables.push(
                    LinearHittable {
                        geometry_type: SPHERE,
                        scene_index: (scene.spheres.len() - 1) as u32,
                    },
                );
            },
            HittablePrimitive::Cuboid(cuboid) => {
                scene.cuboids.push(*cuboid);
                scene.hittables.push(
                    LinearHittable {
                        geometry_type: CUBOID,
                        scene_index: (scene.cuboids.len() - 1) as u32,
                    },
                );
            },
            HittablePrimitive::ConstantMedium(constant_medium) => {
                let boundary_geometry_type: u32;
                let boundary_scene_index: u32;
                match &*constant_medium.boundary_hittable {
                    HittablePrimitive::Sphere(sphere) => {
                        scene.spheres.push(*sphere);
                        boundary_geometry_type = SPHERE;
                        boundary_scene_index = (scene.spheres.len() - 1) as u32;
                    },
                    HittablePrimitive::Cuboid(cuboid) => {
                        scene.cuboids.push(*cuboid);
                        boundary_geometry_type = CUBOID;
                        boundary_scene_index = (scene.cuboids.len() - 1) as u32;
                    },
                    _ => {
                        proof {
                            assert(primitive_ok(ps[i as int]));
                        }
                        boundary_geometry_type = vstd::pervasive::unreached();
                        boundary_scene_index = 0;
                    },
                }
                scene.constant_mediums.push(
                    LinearConstantMedium::new(
                        boundary_geometry_type,
                        boundary_scene_index,
                        constant_medium.material_index,
                        constant_medium.density,
                    ),
                );
                scene.hittables.push(
                    LinearHittable {
                        geometry_type: CONSTANT_MEDIUM,
                        scene_index: (scene.constant_mediums.len() - 1) as u32,
                    },
                );
            },
            HittablePrimitive::Mesh(mesh) => {
                // Faces index the mesh's own vertices; in the scene they
                // follow the vertices already stored.
                let offset = scene.tri_verts.len() as u32;
                let (mut mesh_tri_verts, mesh_tris) = mesh.get_default_first_mesh();
                scene.tri_verts.append(&mut mesh_tri_verts);
                proof {
                    assert(primitive_ok(ps[i as int]));
                }
                let mut k: usize = 0;
                while k < mesh_tris.len()
                    invariant
                        ps == primitives@,
                        pre == ps.subrange(0, i as int),
                        ps[i as int] == HittablePrimitive::Mesh(*mesh),
                        mesh_valid(mesh),
                        mesh_tris@ == crate::hittable_primitive::mesh_triangles(mesh),
                        offset == all_vertices(pre).len(),
                        k <= mesh_tris@.len(),
                        all_vertices(pre).len() + mesh.vertices@.len() < NULL_INDEX,
                        all_triangles(pre).len() + mesh.faces@.len() < NULL_INDEX,
                        scene.materials@ == sb.materials@,
                        scene.bvh_nodes@ == sb.bvh_nodes@,
                        scene.spheres@ == sb.spheres@,
                        scene.cuboids@ == sb.cuboids@,
                        scene.constant_mediums@ == sb.constant_mediums@,
                        scene.tri_verts@ == all_vertices(pre) + mesh.vertices@,
                        scene.tris@ == all_triangles(pre) + prim_triangles(pre, ps[i as int]).subrange(
                            0,
                            k as int,
                        ),
                        scene.hittables@ == all_leaves(pre) + prim_leaves(pre, ps[i as int]).subrange(
                            0,
                            k as int,
                        ),
                        forall|j: int|
                            0 <= j < scene.hittables@.len() ==> is_leaf(
                                #[trigger] scene.hittables@[j],
                            ) && leaf_valid(&scene, scene.hittables@[j]),
                    decreases mesh_tris@.len() - k,
                {
                    let ghost sk = scene;
                    let tri = mesh_tris[k];
                    scene.tris.push(
                        Triangle::new(
                            mesh.material_index,
                            [
                                tri.indices[0] + offset,
                                tri.indices[1] + offset,
                                tri.indices[2] + offset,
                            ],
                        ),
                    );
                    scene.hittables.push(
                        LinearHittable {
                            geometry_type: TRIANGLE,
                            scene_index: (scene.tris.len() - 1) as u32,
                        },
                    );
                    k = k + 1;
                    proof {
                        assert(scene.tris@ =~= all_triangles(pre) + prim_triangles(
                            pre,
                            ps[i as int],
                        ).subrange(0, k as int));
                        assert(scene.hittables@ =~= all_leaves(pre) + prim_leaves(
                            pre,
                            ps[i as int],
                        ).subrange(0, k as int));
                        assert(arrays_grown(&sk, &scene));
                        assert forall|j: int|
                            0 <= j < scene.hittables@.len() implies is_leaf(
                            #[trigger] scene.hittables@[j],
                        ) && leaf_valid(&scene, scene.hittables@[j]) by {
                            if j < sk.hittables@.len() {
                                assert(scene.hittables@[j] == sk.hittables@[j]);
                                lemma_leaf_grown(&sk, &scene, sk.hittables@[j]);
                            }
                        }
                    }
                }
                proof {
                    assert(prim_triangles(pre, ps[i as int]).subrange(0, k as int) =~= prim_triangles(
                        pre,
                        ps[i as int],
                    ));
                    assert(prim_leaves(pre, ps[i as int]).subrange(0, k as int) =~= prim_leaves(
                        pre,
                        ps[i as int],
                    ));
                }
            },
        }
        i = i + 1;
        proof {
            let post = ps.subrange(0, i as int);
            assert(post.drop_last() == pre);
            assert(scene.spheres@ =~= all_spheres(post));
            assert(scene.cuboids@ =~= all_cuboids(post));
            assert(scene.constant_mediums@ =~= all_mediums(post));
            assert(scene.tri_verts@ =~= all_vertices(post));
            assert(scene.tris@ =~= all_triangles(post));
            assert(scene.hittables@ =~= all_leaves(post));
            assert(arrays_grown(&sb, &scene));
            assert forall|k: int| 0 <= k < scene.hittables@.len() implies is_leaf(
                #[trigger] scene.hittables@[k],
            ) && leaf_valid(&scene, scene.hittables@[k]) by {
                if k < sb.hittables@.len() {
                    assert(scene.hittables@[k] == sb.hittables@[k]);
                    lemma_leaf_grown(&sb, &scene, sb.hittables@[k]);
                }
            }
        }
    }
    proof {
        assert(ps.subrange(0, i as int) =~= ps);
        lemma_flat_leaves_all(scene.hittables@);
        vstd::seq_lib::to_multiset_len(scene.hittables@);
    }
    let ghost s_ingested = scene;
    recompute_bvh(&mut scene);
    let ghost s_rebuilt = scene;
    scene.check_pad_empty_arrays();
    proof {
        assert(arrays_grown(&s_rebuilt, &scene));
        lemma_flat_grown(&s_rebuilt, &scene);
        lemma_bfs_grown(&s_rebuilt, &scene);
    }
    scene
}

/// Each sphere as an authored primitive.
pub open spec fn sphere_primitives(spheres: Seq<Sphere>) -> Seq<HittablePrimitive> {
    Seq::new(spheres.len(), |k: int| HittablePrimitive::Sphere(spheres[k]))
}

/// One sphere hittable per sphere, in order.
pub open spec fn sphere_refs(n: nat) -> Seq<LinearHittable> {
    Seq::new(n, |k: int| LinearHittable { geometry_type: SPHERE, scene_index: k as u32 })
}

proof fn lemma_sphere_primitives(spheres: Seq<Sphere>)
    requires
        spheres.len() < NULL_INDEX,
    ensures
        all_spheres(sphere_primitives(spheres)) == spheres,
        all_cuboids(sphere_primitives(spheres)) == Seq::<Cuboid>::empty(),
        all_mediums(sphere_primitives(spheres)) == Seq::<LinearConstantMedium>::empty(),
        all_vertices(sphere_primitives(spheres)) == Seq::<TriangleVertex>::empty(),
        all_triangles(sphere_primitives(spheres)) == Seq::<Triangle>::empty(),
        all_leaves(sphere_primitives(spheres)) == sphere_refs(spheres.len()),
    decreases spheres.len(),
{
    let ps = sphere_primitives(spheres);
    if spheres.len() == 0 {
        assert(all_spheres(ps) =~= spheres);
        assert(all_leaves(ps) =~= sphere_refs(0));
    } else {
        lemma_sphere_primitives(spheres.drop_last());
        assert(ps.drop_last() =~= sphere_primitives(spheres.drop_last()));
        assert(all_spheres(ps) =~= spheres);
        assert(all_cuboids(ps) =~= Seq::<Cuboid>::empty());
        assert(all_mediums(ps) =~= Seq::<LinearConstantMedium>::empty());
        assert(all_vertices(ps) =~= Seq::<TriangleVertex>::empty());
        assert(all_triangles(ps) =~= Seq::<Triangle>::empty());
        assert(all_leaves(ps) =~= sphere_refs(spheres.len()));
    }
}

/// Builds a scene from materials and spheres alone.
pub fn build_from_spheres(materials: &[Material], spheres: &[Sphere]) -> (r: LinearSceneBvh)
    requires
        materials@.len() >= 1,
        spheres@.len() >= 1,
        3 * spheres@.len() < NULL_INDEX,
    ensures
        built_scene(materials@, sphere_primitives(spheres@), &r),
        r.spheres@ == spheres@,
        flat_leaves(r.hittables@) == sphere_refs(spheres@.len()).to_multiset(),
{
    let mut hittables: Vec<HittablePrimitive> = Vec::new();
    let mut i: usize = 0;
    while i < spheres.len()
        invariant
            i <= spheres@.len(),
            hittables@ == sphere_primitives(spheres@).subrange(0, i as int),
        decreases spheres@.len() - i,
    {
        hittables.push(HittablePrimitive::Sphere(spheres[i]));
        i = i + 1;
        assert(hittables@ =~= sphere_primitives(spheres@).subrange(0, i as int));
    }
    proof {
        assert(hittables@ =~= sphere_primitives(spheres@));
        lemma_sphere_primitives(spheres@);
    }
    build_from_hittable_primitives(materials, hittables.as_slice())
}

/// `n` is a power of two.
pub open spec fn is_pow2(n: nat) -> bool
    decreases n,
{
    if n <= 1 {
        n == 1
    } else {
        n % 2 == 0 && is_pow2(n / 2)
    }
}

proof fn lemma_pow2_nodes(n: nat)
    requires
        n >= 2,
        is_pow2(n),
    ensures
        built_nodes(n) == n - 1,
    decreases n,
{
    if n > 2 {
        assert(n / 2 >= 2) by {
            if n / 2 == 1 {
                assert(n == 2 || n == 3);
            }
        }
        lemma_pow2_nodes(n / 2);
        assert((n - n / 2) as nat == n / 2);
    }
}

/// A rebuild keeps every primitive at the leaves exactly as often as before.
/// Over one primitive it makes one node; over `n` primitives it makes
/// `n - 1` nodes when `n` is a power of two, and never fewer than that. (A
/// split of three primitives leaves one alone under a node of its own, so
/// three primitives give three nodes.)
pub proof fn lemma_leaf_coverage(s0: &LinearSceneBvh, s1: &LinearSceneBvh)
    requires
        rebuilt_from(s0, s1),
    ensures
        flat_leaves(s1.hittables@) == flat_leaves(s0.hittables@),
        ({
            let n = flat_leaves(s0.hittables@).len();
            &&& n == 1 ==> flat_nodes(s1.hittables@) == 1
            &&& n >= 2 && is_pow2(n) ==> flat_nodes(s1.hittables@) == n - 1
            &&& n >= 2 ==> flat_nodes(s1.hittables@) >= n - 1
        }),
{
    let n = flat_leaves(s0.hittables@).len();
    if n >= 2 {
        lemma_built_nodes_lower(n);
        if is_pow2(n) {
            lemma_pow2_nodes(n);
        }
    }
}

proof fn lemma_built_nodes_lower(n: nat)
    requires
        n >= 2,
    ensures
        built_nodes(n) >= n - 1,
    decreases n,
{
    if n > 2 {
        if n / 2 >= 2 {
            lemma_built_nodes_lower(n / 2);
        }
        lemma_built_nodes_lower((n - n / 2) as nat);
    }
}

} // verus!
