use scene_bvh::{
    build_from_hittable_primitives, build_from_spheres, recompute_bvh, Aabb, ConstantMedium,
    Cuboid, HittablePrimitive, LinearConstantMedium, LinearHittable, LinearSceneBvh, Material, Mesh,
    SceneBvhConstructionNode, Sphere, Triangle, TriangleVertex, BVH_NODE, CONSTANT_MEDIUM, CUBOID,
    NULL_INDEX, SPHERE, TRIANGLE,
};

fn materials() -> Vec<Material> {
    vec![Material::new(0, 0, 0, [800, 800, 0]), Material::new(1, 100, 0, [700, 600, 500])]
}

fn row_of_spheres(n: i32) -> Vec<Sphere> {
    (0..n).map(|i| Sphere::new([10 * i, (i * 7) % 5, -3 * i], 2, 0)).collect()
}

fn contains(outer: &Aabb, inner: &Aabb) -> bool {
    (0..3).all(|i| outer.min[i] <= inner.min[i] && inner.max[i] <= outer.max[i])
}

fn leaf_refs(scene: &LinearSceneBvh) -> Vec<(u32, u32)> {
    let mut v: Vec<(u32, u32)> = scene
        .hittables
        .iter()
        .filter(|h| h.geometry_type != BVH_NODE)
        .map(|h| (h.geometry_type, h.scene_index))
        .collect();
    v.sort();
    v
}

fn node_count(scene: &LinearSceneBvh) -> usize {
    scene.hittables.iter().filter(|h| h.geometry_type == BVH_NODE).count()
}

/// For each position, the position of its parent (the root has none).
fn parents(scene: &LinearSceneBvh) -> Vec<Option<usize>> {
    let mut p = vec![None; scene.hittables.len()];
    for (i, h) in scene.hittables.iter().enumerate() {
        if h.geometry_type == BVH_NODE {
            let n = &scene.bvh_nodes[h.scene_index as usize];
            p[n.left_hittable as usize] = Some(i);
            if n.right_hittable != NULL_INDEX {
                p[n.right_hittable as usize] = Some(i);
            }
        }
    }
    p
}

fn check_forward_children(scene: &LinearSceneBvh) {
    let len = scene.hittables.len() as u32;
    for (i, h) in scene.hittables.iter().enumerate() {
        if h.geometry_type == BVH_NODE {
            let n = &scene.bvh_nodes[h.scene_index as usize];
            assert!(n.left_hittable > i as u32 && n.left_hittable < len);
            assert!(n.right_hittable == NULL_INDEX || (n.right_hittable > i as u32 && n.right_hittable < len));
        }
    }
}

fn check_ancestors_contain(scene: &LinearSceneBvh) {
    let p = parents(scene);
    assert!(p[0].is_none());
    for d in 1..scene.hittables.len() {
        assert!(p[d].is_some());
    }
    for d in 0..scene.hittables.len() {
        let b = scene.hittables[d].bounding_box(scene);
        let mut a = p[d];
        while let Some(i) = a {
            assert!(contains(&scene.hittables[i].bounding_box(scene), &b));
            a = p[i];
        }
    }
}

#[test]
fn single_sphere_scene_has_one_root_over_the_sphere() {
    let scene = build_from_spheres(&materials(), &[Sphere::new([0, 0, 0], 500, 0)]);
    assert_eq!(scene.hittables.len(), 2);
    assert_eq!(scene.bvh_nodes.len(), 1);
    assert_eq!(scene.hittables[0].geometry_type, BVH_NODE);
    assert_eq!(scene.hittables[1], LinearHittable { geometry_type: SPHERE, scene_index: 0 });
    let root = &scene.bvh_nodes[0];
    assert_eq!(root.left_hittable, 1);
    assert_eq!(root.right_hittable, NULL_INDEX);
    assert_eq!(root.aabb, Aabb::new([-500, -500, -500], [500, 500, 500]));
}

#[test]
fn every_sphere_is_a_leaf_exactly_once() {
    for n in 1..=12 {
        let spheres = row_of_spheres(n);
        let scene = build_from_spheres(&materials(), &spheres);
        let expected: Vec<(u32, u32)> = (0..n as u32).map(|i| (SPHERE, i)).collect();
        assert_eq!(leaf_refs(&scene), expected);
        assert_eq!(node_count(&scene), scene.bvh_nodes.len());
        assert_eq!(scene.spheres, spheres);
    }
}

#[test]
fn node_counts() {
    let count = |n: i32| node_count(&build_from_spheres(&materials(), &row_of_spheres(n)));
    assert_eq!(count(1), 1);
    assert_eq!(count(2), 1);
    assert_eq!(count(3), 3);
    assert_eq!(count(4), 3);
    assert_eq!(count(8), 7);
    assert_eq!(count(16), 15);
}

#[test]
fn children_point_forward() {
    for n in 1..=20 {
        let scene = build_from_spheres(&materials(), &row_of_spheres(n));
        check_forward_children(&scene);
    }
}

#[test]
fn ancestors_enclose_descendants() {
    for n in 1..=20 {
        let scene = build_from_spheres(&materials(), &row_of_spheres(n));
        check_ancestors_contain(&scene);
    }
}

#[test]
fn node_box_is_union_of_children() {
    let scene = build_from_spheres(&materials(), &row_of_spheres(9));
    for h in scene.hittables.iter().filter(|h| h.geometry_type == BVH_NODE) {
        let n = &scene.bvh_nodes[h.scene_index as usize];
        let l = scene.hittables[n.left_hittable as usize].bounding_box(&scene);
        let expected = if n.right_hittable == NULL_INDEX {
            l
        } else {
            scene_bvh::surrounding_box(&l, &scene.hittables[n.right_hittable as usize].bounding_box(&scene))
        };
        assert_eq!(n.aabb, expected);
    }
}

#[test]
fn root_box_is_hull_of_all_spheres() {
    let scene = build_from_spheres(&materials(), &row_of_spheres(7));
    let root = scene.hittables[0].bounding_box(&scene);
    assert_eq!(root, Aabb::new([-2, -2, -20], [62, 6, 2]));
}

#[test]
fn rebuilding_twice_keeps_leaves_and_root_box() {
    let mut scene = build_from_spheres(&materials(), &row_of_spheres(11));
    recompute_bvh(&mut scene);
    let leaves1 = leaf_refs(&scene);
    let root1 = scene.hittables[0].bounding_box(&scene);
    let nodes1 = scene.bvh_nodes.len();
    recompute_bvh(&mut scene);
    assert_eq!(leaf_refs(&scene), leaves1);
    assert_eq!(scene.hittables[0].bounding_box(&scene), root1);
    assert_eq!(scene.bvh_nodes.len(), nodes1);
    check_forward_children(&scene);
}

fn two_sphere_scene(first_x: i32, second_x: i32) -> LinearSceneBvh {
    let mut scene = LinearSceneBvh::new();
    scene.spheres.push(Sphere::new([first_x, 0, 0], 1, 0));
    scene.spheres.push(Sphere::new([second_x, 0, 0], 1, 0));
    scene
}

#[test]
fn two_spheres_split_along_x_in_order() {
    for (a, b) in [(0, 10), (10, 0), (-5, 5), (5, -5)] {
        let mut scene = two_sphere_scene(a, b);
        let leaves = [
            LinearHittable { geometry_type: SPHERE, scene_index: 0 },
            LinearHittable { geometry_type: SPHERE, scene_index: 1 },
        ];
        let root = SceneBvhConstructionNode::new_on_axis(&mut scene, &leaves, 0);
        root.flatten(&mut scene);
        let n = &scene.bvh_nodes[scene.hittables[0].scene_index as usize];
        let l = scene.hittables[n.left_hittable as usize].bounding_box(&scene);
        let r = scene.hittables[n.right_hittable as usize].bounding_box(&scene);
        assert!(l.min[0] <= r.min[0]);
        assert_eq!(scene.hittables.len(), 3);
    }
}

#[test]
fn construction_and_flatten_by_hand() {
    let mut scene = two_sphere_scene(0, 10);
    scene.spheres.push(Sphere::new([20, 0, 0], 1, 0));
    let leaves: Vec<LinearHittable> =
        (0..3).map(|i| LinearHittable { geometry_type: SPHERE, scene_index: i }).collect();
    let root = SceneBvhConstructionNode::new(&mut scene, &leaves);
    assert_eq!(root.hittable.geometry_type, BVH_NODE);
    assert_eq!(scene.bvh_nodes.len(), 3);
    let copy = root.clone_tree();
    copy.flatten(&mut scene);
    assert_eq!(scene.hittables.len(), 6);
    assert_eq!(scene.hittables[0], root.hittable);
    check_forward_children(&scene);
    check_ancestors_contain(&scene);
    let leaf = SceneBvhConstructionNode::leaf(leaves[1]);
    assert!(leaf.left.is_none() && leaf.right.is_none());
}

#[test]
fn empty_arrays_are_padded() {
    let scene = build_from_spheres(&materials(), &row_of_spheres(3));
    assert_eq!(scene.cuboids, vec![Cuboid::empty()]);
    assert_eq!(scene.constant_mediums.len(), 1);
    assert_eq!(scene.constant_mediums[0].material_index, NULL_INDEX);
    assert_eq!(scene.tri_verts, vec![TriangleVertex::empty()]);
    assert_eq!(scene.tris, vec![Triangle::empty()]);
    assert_eq!(scene.materials, materials());
}

#[test]
fn check_pad_keeps_non_empty_arrays() {
    let mut scene = LinearSceneBvh::new();
    scene.materials.push(Material::empty());
    scene.hittables.push(LinearHittable { geometry_type: SPHERE, scene_index: 0 });
    scene.spheres.push(Sphere::new([1, 1, 1], 1, 0));
    scene.check_pad_empty_arrays();
    assert_eq!(scene.spheres, vec![Sphere::new([1, 1, 1], 1, 0)]);
    assert_eq!(scene.bvh_nodes.len(), 1);
    assert_eq!(scene.cuboids.len(), 1);
}

fn mesh(vertices: &[[i32; 3]], faces: &[[u32; 3]], material: u32) -> Mesh {
    Mesh::new(vertices.iter().map(|p| TriangleVertex::new(*p)).collect(), faces.to_vec(), material)
}

#[test]
fn mixed_primitives_are_stored_by_kind() {
    let primitives = vec![
        HittablePrimitive::Sphere(Sphere::new([0, 0, 0], 1, 0)),
        HittablePrimitive::Mesh(mesh(&[[0, 0, 0], [1, 0, 0], [0, 1, 0]], &[[0, 1, 2]], 1)),
        HittablePrimitive::ConstantMedium(ConstantMedium {
            boundary_hittable: Box::new(HittablePrimitive::Cuboid(Cuboid::new(
                [[1, 0, 0, 0], [0, 1, 0, 0], [0, 0, 1, 0], [0, 5, 0, 1]],
                0,
            ))),
            material_index: 1,
            density: 200,
        }),
        HittablePrimitive::Mesh(mesh(
            &[[5, 5, 5], [6, 5, 5], [5, 6, 5], [5, 5, 6]],
            &[[0, 1, 2], [1, 2, 3]],
            0,
        )),
        HittablePrimitive::Cuboid(Cuboid::new([[2, 0, 0, 0], [0, 2, 0, 0], [0, 0, 2, 0], [9, 9, 9, 1]], 1)),
    ];
    let scene = build_from_hittable_primitives(&materials(), &primitives);
    assert_eq!(scene.spheres.len(), 1);
    assert_eq!(scene.cuboids.len(), 2);
    assert_eq!(scene.cuboids[0].txi[3], [0, 5, 0, 1]);
    assert_eq!(scene.cuboids[1].txi[3], [9, 9, 9, 1]);
    assert_eq!(scene.constant_mediums, vec![LinearConstantMedium::new(CUBOID, 0, 1, 200)]);
    assert_eq!(scene.tri_verts.len(), 7);
    assert_eq!(
        scene.tris,
        vec![Triangle::new(1, [0, 1, 2]), Triangle::new(0, [3, 4, 5]), Triangle::new(0, [4, 5, 6])]
    );
    let mut expected = vec![
        (SPHERE, 0),
        (TRIANGLE, 0),
        (CONSTANT_MEDIUM, 0),
        (TRIANGLE, 1),
        (TRIANGLE, 2),
        (CUBOID, 1),
    ];
    expected.sort();
    assert_eq!(leaf_refs(&scene), expected);
    check_forward_children(&scene);
    check_ancestors_contain(&scene);
    let root = scene.hittables[0].bounding_box(&scene);
    assert_eq!(root, Aabb::new([-1, -1, -1], [11, 11, 11]));
}

#[test]
fn medium_with_sphere_boundary() {
    let primitives = vec![HittablePrimitive::ConstantMedium(ConstantMedium {
        boundary_hittable: Box::new(HittablePrimitive::Sphere(Sphere::new([3, 3, 3], 2, 0))),
        material_index: 0,
        density: 1000,
    })];
    let scene = build_from_hittable_primitives(&materials(), &primitives);
    assert_eq!(scene.spheres, vec![Sphere::new([3, 3, 3], 2, 0)]);
    assert_eq!(scene.constant_mediums, vec![LinearConstantMedium::new(SPHERE, 0, 0, 1000)]);
    assert_eq!(scene.hittables[1], LinearHittable { geometry_type: CONSTANT_MEDIUM, scene_index: 0 });
    assert_eq!(scene.bvh_nodes[0].aabb, Aabb::new([1, 1, 1], [5, 5, 5]));
}

#[test]
fn mesh_hands_out_vertices_and_triangles() {
    let m = mesh(&[[0, 0, 0], [1, 0, 0], [0, 1, 0]], &[[0, 1, 2], [2, 1, 0]], 4);
    let (verts, tris) = m.get_default_first_mesh();
    assert_eq!(verts.len(), 3);
    assert_eq!(verts[1].position, [1, 0, 0]);
    assert_eq!(tris, vec![Triangle::new(4, [0, 1, 2]), Triangle::new(4, [2, 1, 0])]);
}

#[test]
fn moving_a_cuboid_rebuilds_around_it() {
    let t = [[2, 0, 0, 0], [0, 1, 0, 0], [0, 0, 3, 0], [0, 0, 0, 1]];
    let primitives = vec![
        HittablePrimitive::Sphere(Sphere::new([0, 0, 0], 1, 0)),
        HittablePrimitive::Cuboid(Cuboid::new(t, 1)),
        HittablePrimitive::Sphere(Sphere::new([20, 0, 0], 1, 0)),
    ];
    let mut scene = build_from_hittable_primitives(&materials(), &primitives);
    let cuboid = LinearHittable { geometry_type: CUBOID, scene_index: 0 };
    scene.transform_hittable_by(&cuboid, [0, 0, 5]);
    assert_eq!(scene.cuboids[0].txi, [[2, 0, 0, 0], [0, 1, 0, 0], [0, 0, 3, 0], [0, 0, 15, 1]]);
    let moved = scene.cuboids[0].bounding_box();
    assert_eq!(moved, Aabb::new([-2, -1, 12], [2, 1, 18]));
    let root = scene.hittables[0].bounding_box(&scene);
    assert!(contains(&root, &moved));
    assert_eq!(root, Aabb::new([-2, -1, -1], [21, 1, 18]));
    check_forward_children(&scene);
    check_ancestors_contain(&scene);
}

#[test]
fn moving_a_sphere_moves_its_centre() {
    let mut scene = build_from_spheres(&materials(), &row_of_spheres(4));
    let s = LinearHittable { geometry_type: SPHERE, scene_index: 2 };
    scene.transform_hittable_by(&s, [1, -2, 3]);
    assert_eq!(scene.spheres[2].center, [21, 2, -3]);
    assert_eq!(leaf_refs(&scene).len(), 4);
    check_ancestors_contain(&scene);
}

#[test]
fn transform_by_changes_only_the_primitive() {
    let mut scene = build_from_spheres(&materials(), &row_of_spheres(2));
    let hittables = scene.hittables.clone();
    let s = LinearHittable { geometry_type: SPHERE, scene_index: 0 };
    s.transform_by(&mut scene, [4, 4, 4]);
    assert_eq!(scene.spheres[0].center, [4, 4, 4]);
    assert_eq!(scene.hittables, hittables);
}

#[test]
fn hittables_are_in_breadth_first_order() {
    for n in 1..=20 {
        let scene = build_from_spheres(&materials(), &row_of_spheres(n));
        let mut last_left: Option<u32> = None;
        for h in scene.hittables.iter().filter(|h| h.geometry_type == BVH_NODE) {
            let node = &scene.bvh_nodes[h.scene_index as usize];
            assert!(node.right_hittable == NULL_INDEX || node.right_hittable == node.left_hittable + 1);
            if let Some(l) = last_left {
                assert!(l < node.left_hittable);
            }
            last_left = Some(node.left_hittable);
        }
        // The first children of the root follow it directly.
        assert_eq!(scene.bvh_nodes[scene.hittables[0].scene_index as usize].left_hittable, 1);
    }
}

#[test]
fn interactive_section_moves_along_z() {
    let mut scene = build_from_spheres(&materials(), &row_of_spheres(3));
    let section = scene_bvh::InteractiveSection::new(LinearHittable { geometry_type: SPHERE, scene_index: 1 });
    section.translate(&mut scene, -4);
    assert_eq!(scene.spheres[1].center, [10, 2, -7]);
    check_forward_children(&scene);
    check_ancestors_contain(&scene);
}
