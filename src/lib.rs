//! Bounding-volume-hierarchy construction and linearisation for a scene of
//! spheres, cuboids, triangles and participating media.
//!
//! Geometry is held in fixed-point integer coordinates. A scene is kept as an
//! arena of parallel arrays; the hierarchy over it is built as an owned tree
//! and then flattened breadth first into index-addressed nodes whose children
//! always come later in the hittable array.
pub mod aabb;
pub mod construction_node;
pub mod construction_scene;
pub mod hierarchy;
pub mod hittable_primitive;
pub mod interactive;
pub mod primitives;
pub mod scene;
pub mod util;

pub use aabb::{surrounding_box, Aabb};
pub use construction_node::{box_compare, SceneBvhConstructionNode};
pub use construction_scene::{build_from_hittable_primitives, build_from_spheres, recompute_bvh};
pub use hittable_primitive::{ConstantMedium, HittablePrimitive, Mesh};
pub use interactive::InteractiveSection;
pub use primitives::{
    BvhNode, Cuboid, LinearConstantMedium, Material, Sphere, Triangle, TriangleVertex, NULL_INDEX,
};
pub use scene::{
    LinearHittable, LinearSceneBvh, BVH_NODE, CONSTANT_MEDIUM, CUBOID, SPHERE, TRIANGLE,
};
pub use util::random_int;
