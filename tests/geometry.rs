use scene_bvh::{
    box_compare, random_int, surrounding_box, Aabb, BvhNode, Cuboid, LinearConstantMedium,
    LinearHittable, LinearSceneBvh, Material, Sphere, Triangle, TriangleVertex, NULL_INDEX, SPHERE,
};
use std::cmp::Ordering;

fn scaled_cuboid() -> Cuboid {
    Cuboid::new(
        [[2, 0, 0, 0], [0, 3, 0, 0], [0, 0, 1, 0], [10, 20, 30, 1]],
        0,
    )
}

#[test]
fn test_random_int() {
    for _ in 0..10 {
        let r_int = random_int(0, 2);
        assert!(r_int <= 2);
    }
}

#[test]
fn random_int_single_value_range() {
    for _ in 0..10 {
        assert_eq!(random_int(7, 7), 7);
    }
}

#[test]
fn surrounding_box_takes_componentwise_extremes() {
    let a = Aabb::new([0, 0, 0], [1, 1, 1]);
    let b = Aabb::new([-1, 2, 0], [0, 3, 5]);
    let u = surrounding_box(&a, &b);
    assert_eq!(u, Aabb::new([-1, 0, 0], [1, 3, 5]));
    assert_eq!(u.min(), &[-1, 0, 0]);
    assert_eq!(u.max(), &[1, 3, 5]);
}

#[test]
fn empty_box_is_zero_at_origin() {
    assert_eq!(Aabb::empty(), Aabb::new([0, 0, 0], [0, 0, 0]));
}

#[test]
fn sphere_box_is_center_plus_minus_radius() {
    let s = Sphere::new([1, 2, 3], 4, 0);
    assert_eq!(s.bounding_box(), Aabb::new([-3, -2, -1], [5, 6, 7]));
}

#[test]
fn sphere_box_at_extreme_coordinates() {
    let s = Sphere::new([i32::MAX, i32::MIN, 0], i32::MAX, 0);
    let b = s.bounding_box();
    assert_eq!(b.min[0], 0);
    assert_eq!(b.max[0], 2 * (i32::MAX as i64));
    assert_eq!(b.min[1], i32::MIN as i64 - i32::MAX as i64);
}

#[test]
fn cuboid_box_uses_scale_and_translation() {
    assert_eq!(scaled_cuboid().bounding_box(), Aabb::new([8, 17, 29], [12, 23, 31]));
}

#[test]
fn rotated_cuboid_box() {
    // A quarter turn about z of a cuboid with half extents 2 and 1.
    let c = Cuboid::new([[0, 2, 0, 0], [-1, 0, 0, 0], [0, 0, 1, 0], [0, 0, 0, 1]], 0);
    assert_eq!(c.bounding_box(), Aabb::new([-1, -2, -1], [1, 2, 1]));
}

#[test]
fn triangle_box_spans_its_corners() {
    let mut scene = LinearSceneBvh::new();
    scene.tri_verts.push(TriangleVertex::new([0, 0, 0]));
    scene.tri_verts.push(TriangleVertex::new([4, -1, 2]));
    scene.tri_verts.push(TriangleVertex::new([1, 5, -3]));
    let t = Triangle::new(0, [0, 1, 2]);
    assert_eq!(t.bounding_box(&scene), Aabb::new([0, -1, -3], [4, 5, 2]));
}

#[test]
fn medium_box_is_its_boundary_box() {
    let mut scene = LinearSceneBvh::new();
    scene.spheres.push(Sphere::new([0, 0, 0], 1, 0));
    scene.cuboids.push(scaled_cuboid());
    let on_sphere = LinearConstantMedium::new(1, 0, 0, 500);
    let on_cuboid = LinearConstantMedium::new(2, 0, 0, 500);
    assert_eq!(on_sphere.bounding_box(&scene), Aabb::new([-1, -1, -1], [1, 1, 1]));
    assert_eq!(on_cuboid.bounding_box(&scene), Aabb::new([8, 17, 29], [12, 23, 31]));
}

#[test]
fn hittable_box_looks_up_node_and_primitive() {
    let mut scene = LinearSceneBvh::new();
    scene.spheres.push(Sphere::new([5, 5, 5], 1, 0));
    scene.bvh_nodes.push(BvhNode::new(NULL_INDEX, NULL_INDEX, Aabb::new([1, 2, 3], [4, 5, 6])));
    let node = LinearHittable { geometry_type: 0, scene_index: 0 };
    let sphere = LinearHittable { geometry_type: SPHERE, scene_index: 0 };
    assert_eq!(node.bounding_box(&scene), Aabb::new([1, 2, 3], [4, 5, 6]));
    assert_eq!(sphere.bounding_box(&scene), Aabb::new([4, 4, 4], [6, 6, 6]));
    assert_eq!(sphere.get_scene_index(), 0);
}

#[test]
fn box_compare_uses_min_against_max() {
    let mut scene = LinearSceneBvh::new();
    scene.spheres.push(Sphere::new([0, 0, 0], 1, 0));
    scene.spheres.push(Sphere::new([5, 0, 0], 1, 0));
    scene.spheres.push(Sphere::new([3, 0, 0], 2, 0));
    let a = LinearHittable { geometry_type: SPHERE, scene_index: 0 };
    let b = LinearHittable { geometry_type: SPHERE, scene_index: 1 };
    let c = LinearHittable { geometry_type: SPHERE, scene_index: 2 };
    assert_eq!(box_compare(&scene, &a, &b, 0), Ordering::Less);
    assert_eq!(box_compare(&scene, &b, &a, 0), Ordering::Greater);
    // c starts at x = 1, where a ends.
    assert_eq!(box_compare(&scene, &c, &a, 0), Ordering::Equal);
    // Along y both boxes span -1..1, and -1 < 1.
    assert_eq!(box_compare(&scene, &b, &a, 1), Ordering::Less);
}

#[test]
fn placeholders() {
    let s = Sphere::empty();
    assert_eq!(s.radius, 0);
    assert_eq!(s.material_index, NULL_INDEX);
    let c = Cuboid::empty();
    assert_eq!(c.txi, [[0; 4]; 4]);
    assert_eq!(c.material_index, NULL_INDEX);
    let m = LinearConstantMedium::empty();
    assert_eq!(m.boundary_geometry_type, NULL_INDEX);
    assert_eq!(m.boundary_scene_index, NULL_INDEX);
    assert_eq!(m.density, 0);
    assert_eq!(Triangle::empty().indices, [0, 0, 0]);
    assert_eq!(TriangleVertex::empty().position, [0, 0, 0]);
    let n = BvhNode::empty();
    assert_eq!(n.left_hittable, NULL_INDEX);
    assert_eq!(n.right_hittable, NULL_INDEX);
    assert_eq!(n.bounding_box(), Aabb::empty());
    assert_eq!(Material::empty().material_type, 0);
    assert_eq!(LinearSceneBvh::null_index_ptr(), u32::MAX);
    assert_eq!(BvhNode::null_hittable_ptr(), u32::MAX);
}

#[test]
fn bvh_node_setters() {
    let mut n = BvhNode::empty();
    n.set_left(3);
    n.set_right(7);
    assert_eq!(n.left_hittable, 3);
    assert_eq!(n.right_hittable, 7);
}

#[test]
fn cuboid_translation_composes_after_the_transform() {
    let mut c = scaled_cuboid();
    c.transform_txi_by([1, 1, 1]);
    // T ∘ Δ: the offset is scaled by the linear part before it is added.
    assert_eq!(c.txi, [[2, 0, 0, 0], [0, 3, 0, 0], [0, 0, 1, 0], [12, 23, 31, 1]]);
}
