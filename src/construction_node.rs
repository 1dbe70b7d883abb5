use vstd::prelude::*;
use vstd::multiset::Multiset;
use vstd::seq_lib::{lemma_multiset_commutative, to_multiset_update};
use std::cmp::Ordering;

use crate::aabb::{contains, lemma_contains_trans, lemma_union_contains, surrounding_box, union_box, Aabb};
use crate::primitives::{BvhNode, NULL_INDEX};
use crate::scene::{
    hittable_box, hittable_valid, is_leaf, lemma_same_geometry_leaf, leaf_valid, same_geometry, LinearHittable,
    LinearSceneBvh, BVH_NODE,
};
use crate::util::random_int;

verus! {

/// A node of the owned tree built over the scene before it is flattened. An
/// internal node refers to its entry in the scene's node array and has a left
/// child and possibly a right one; a leaf refers to a primitive. A node built
/// over a single primitive has it as its left child and no right child, and
/// its flattened entry's right index is `NULL_INDEX`.
#[derive(Debug)]
pub struct SceneBvhConstructionNode {
    pub left: Option<Box<SceneBvhConstructionNode>>,
    pub right: Option<Box<SceneBvhConstructionNode>>,
    pub hittable: LinearHittable,
}

/// Internal nodes, and only they, have a left child and refer to a node entry;
/// a right child comes only with a left one.
pub open spec fn tree_wf(n: SceneBvhConstructionNode) -> bool
    decreases n,
{
    match n.left {
        None => n.right is None && is_leaf(n.hittable),
        Some(l) => {
            &&& n.hittable.geometry_type == BVH_NODE
            &&& tree_wf(*l)
            &&& match n.right {
                None => true,
                Some(r) => tree_wf(*r),
            }
        },
    }
}

/// The primitives at the leaves of the tree.
pub open spec fn tree_leaves(n: SceneBvhConstructionNode) -> Multiset<LinearHittable>
    decreases n,
{
    match n.left {
        None => Multiset::singleton(n.hittable),
        Some(l) => match n.right {
            None => tree_leaves(*l),
            Some(r) => tree_leaves(*l).add(tree_leaves(*r)),
        },
    }
}

/// The number of internal nodes of the tree.
pub open spec fn tree_nodes(n: SceneBvhConstructionNode) -> nat
    decreases n,
{
    match n.left {
        None => 0,
        Some(l) => match n.right {
            None => 1 + tree_nodes(*l),
            Some(r) => 1 + tree_nodes(*l) + tree_nodes(*r),
        },
    }
}

/// The number of nodes of the tree, leaves included.
pub open spec fn tree_size(n: SceneBvhConstructionNode) -> nat
    decreases n,
{
    match n.left {
        None => 1,
        Some(l) => match n.right {
            None => 1 + tree_size(*l),
            Some(r) => 1 + tree_size(*l) + tree_size(*r),
        },
    }
}

/// The node-array indices that the internal nodes of the tree refer to.
pub open spec fn tree_ids(n: SceneBvhConstructionNode) -> Set<int>
    decreases n,
{
    match n.left {
        None => Set::empty(),
        Some(l) => match n.right {
            None => tree_ids(*l).insert(n.hittable.scene_index as int),
            Some(r) => tree_ids(*l).union(tree_ids(*r)).insert(n.hittable.scene_index as int),
        },
    }
}

/// No two internal nodes of the tree refer to the same node entry.
pub open spec fn ids_distinct(n: SceneBvhConstructionNode) -> bool
    decreases n,
{
    match n.left {
        None => true,
        Some(l) => {
            &&& !tree_ids(*l).contains(n.hittable.scene_index as int)
            &&& ids_distinct(*l)
            &&& match n.right {
                None => true,
                Some(r) => {
                    &&& !tree_ids(*r).contains(n.hittable.scene_index as int)
                    &&& tree_ids(*l).disjoint(tree_ids(*r))
                    &&& ids_distinct(*r)
                },
            }
        },
    }
}

/// Every entity the tree refers to exists in `s`.
pub open spec fn tree_valid(s: &LinearSceneBvh, n: SceneBvhConstructionNode) -> bool
    decreases n,
{
    match n.left {
        None => leaf_valid(s, n.hittable),
        Some(l) => {
            &&& n.hittable.scene_index < s.bvh_nodes@.len()
            &&& tree_valid(s, *l)
            &&& match n.right {
                None => true,
                Some(r) => tree_valid(s, *r),
            }
        },
    }
}

/// The box stored for an internal node with children `l` and `r` (if any).
pub open spec fn children_box(
    s: &LinearSceneBvh,
    l: LinearHittable,
    r: Option<LinearHittable>,
) -> Aabb {
    match r {
        None => hittable_box(s, l),
        Some(r) => union_box(hittable_box(s, l), hittable_box(s, r)),
    }
}

/// Each internal node's stored box surrounds its children's boxes.
pub open spec fn tree_boxes(s: &LinearSceneBvh, n: SceneBvhConstructionNode) -> bool
    decreases n,
{
    match n.left {
        None => true,
        Some(l) => {
            &&& s.bvh_nodes@[n.hittable.scene_index as int].aabb == children_box(
                s,
                l.hittable,
                match n.right {
                    None => None,
                    Some(r) => Some(r.hittable),
                },
            )
            &&& tree_boxes(s, *l)
            &&& match n.right {
                None => true,
                Some(r) => tree_boxes(s, *r),
            }
        },
    }
}

/// `b` agrees with `a` on the primitives and on the boxes of `a`'s nodes, and
/// has at least as many nodes.
pub open spec fn boxes_kept(a: &LinearSceneBvh, b: &LinearSceneBvh) -> bool {
    &&& same_geometry(a, b)
    &&& a.bvh_nodes@.len() <= b.bvh_nodes@.len()
    &&& forall|i: int|
        0 <= i < a.bvh_nodes@.len() ==> (#[trigger] b.bvh_nodes@[i]).aabb == a.bvh_nodes@[i].aabb
}

proof fn lemma_box_kept(a: &LinearSceneBvh, b: &LinearSceneBvh, h: LinearHittable)
    requires
        boxes_kept(a, b),
        hittable_valid(a, h),
    ensures
        hittable_valid(b, h),
        hittable_box(a, h) == hittable_box(b, h),
{
    if h.geometry_type == BVH_NODE {
        assert(b.bvh_nodes@[h.scene_index as int].aabb == a.bvh_nodes@[h.scene_index as int].aabb);
    }
}

/// What a tree states of a scene stays true in any scene that keeps its
/// primitives and its node boxes.
proof fn lemma_tree_frame(a: &LinearSceneBvh, b: &LinearSceneBvh, n: SceneBvhConstructionNode)
    requires
        boxes_kept(a, b),
        tree_valid(a, n),
        tree_wf(n),
    ensures
        tree_valid(b, n),
        tree_boxes(a, n) ==> tree_boxes(b, n),
    decreases n,
{
    match n.left {
        None => {
            lemma_box_kept(a, b, n.hittable);
        },
        Some(l) => {
            lemma_tree_frame(a, b, *l);
            lemma_tree_valid_hittable(a, *l);
            lemma_box_kept(a, b, l.hittable);
            let i = n.hittable.scene_index as int;
            assert(b.bvh_nodes@[i].aabb == a.bvh_nodes@[i].aabb);
            match n.right {
                None => {},
                Some(r) => {
                    lemma_tree_frame(a, b, *r);
                    lemma_tree_valid_hittable(a, *r);
                    lemma_box_kept(a, b, r.hittable);
                },
            }
        },
    }
}

/// The hittable at the root of a valid tree is valid.
proof fn lemma_tree_valid_hittable(s: &LinearSceneBvh, n: SceneBvhConstructionNode)
    requires
        tree_valid(s, n),
        tree_wf(n),
    ensures
        hittable_valid(s, n.hittable),
{
}

/// The sign of `hittable_box(a).min[axis]` against `hittable_box(b).max[axis]`.
#[verifier::opaque]
pub open spec fn box_order(
    s: &LinearSceneBvh,
    a: LinearHittable,
    b: LinearHittable,
    axis: int,
) -> Ordering {
    let x = hittable_box(s, a).min[axis];
    let y = hittable_box(s, b).max[axis];
    if x < y {
        Ordering::Less
    } else if x == y {
        Ordering::Equal
    } else {
        Ordering::Greater
    }
}

/// Compares two hittables along `axis`: the minimum of `a`'s box against the
/// maximum of `b`'s box.
pub fn box_compare(
    scene: &LinearSceneBvh,
    a: &LinearHittable,
    b: &LinearHittable,
    axis: usize,
) -> (r: Ordering)
    requires
        hittable_valid(scene, *a),
        hittable_valid(scene, *b),
        axis < 3,
    ensures
        r == box_order(scene, *a, *b, axis as int),
{
    reveal(box_order);
    let x = a.bounding_box(scene).min[axis];
    let y = b.bounding_box(scene).max[axis];
    if x < y {
        Ordering::Less
    } else if x == y {
        Ordering::Equal
    } else {
        Ordering::Greater
    }
}

/// The box of `h` is well formed along `axis`.
#[verifier::opaque]
pub open spec fn wf_on(s: &LinearSceneBvh, h: LinearHittable, axis: int) -> bool {
    hittable_box(s, h).min[axis] <= hittable_box(s, h).max[axis]
}

proof fn lemma_box_order_frame(
    a: &LinearSceneBvh,
    b: &LinearSceneBvh,
    x: LinearHittable,
    y: LinearHittable,
    axis: int,
)
    requires
        same_geometry(a, b),
        is_leaf(x),
        is_leaf(y),
    ensures
        box_order(a, x, y, axis) == box_order(b, x, y, axis),
{
    reveal(box_order);
    lemma_same_geometry_leaf(a, b, x);
    lemma_same_geometry_leaf(a, b, y);
}

proof fn lemma_flip(s: &LinearSceneBvh, x: LinearHittable, y: LinearHittable, axis: int)
    requires
        wf_on(s, x, axis),
        wf_on(s, y, axis),
        box_order(s, y, x, axis) == Ordering::Greater,
    ensures
        box_order(s, x, y, axis) == Ordering::Less,
{
    reveal(box_order);
    reveal(wf_on);
}

/// Swapping the element moving down past a neighbour that compares
/// `Greater` keeps the insertion sort's invariants.
proof fn lemma_swap_step(
    s: &LinearSceneBvh,
    s0: Seq<LinearHittable>,
    v: Seq<LinearHittable>,
    j: int,
    i: int,
    axis: int,
)
    requires
        0 < j <= i < s0.len(),
        v == s0.update(j - 1, s0[j]).update(j, s0[j - 1]),
        forall|k: int| 0 <= k < s0.len() ==> wf_on(s, #[trigger] s0[k], axis),
        sorted_on(s, s0, axis, 0, j),
        sorted_on(s, s0, axis, j + 1, i + 1),
        j < i ==> box_order(s, s0[j - 1], s0[j + 1], axis) != Ordering::Greater,
        box_order(s, s0[j - 1], s0[j], axis) == Ordering::Greater,
    ensures
        forall|k: int| 0 <= k < v.len() ==> wf_on(s, #[trigger] v[k], axis),
        sorted_on(s, v, axis, 0, j - 1),
        sorted_on(s, v, axis, j, i + 1),
        box_order(s, v[j - 1], v[j], axis) != Ordering::Greater,
        0 < j - 1 ==> box_order(s, v[j - 2], v[j], axis) != Ordering::Greater,
{
    assert forall|k: int| 0 <= k < v.len() implies wf_on(s, #[trigger] v[k], axis) by {
        if k == j - 1 {
            assert(wf_on(s, s0[j], axis));
        } else if k == j {
            assert(wf_on(s, s0[j - 1], axis));
        } else {
            assert(wf_on(s, s0[k], axis));
        }
    }
    lemma_flip(s, s0[j], s0[j - 1], axis);
    assert forall|k: int| 0 <= k && k + 1 < j - 1 implies #[trigger] box_order(s, v[k], v[k + 1], axis)
        != Ordering::Greater by {
        assert(box_order(s, s0[k], s0[k + 1], axis) != Ordering::Greater);
    }
    assert forall|k: int| j <= k && k + 1 < i + 1 implies #[trigger] box_order(s, v[k], v[k + 1], axis)
        != Ordering::Greater by {
        if k > j {
            assert(box_order(s, s0[k], s0[k + 1], axis) != Ordering::Greater);
        }
    }
    if 0 < j - 1 {
        let k = j - 2;
        assert(box_order(s, s0[k], s0[k + 1], axis) != Ordering::Greater);
    }
}

/// No neighbours in `v[lo..hi]` compare `Greater` along `axis`.
pub open spec fn sorted_on(s: &LinearSceneBvh, v: Seq<LinearHittable>, axis: int, lo: int, hi: int) -> bool {
    forall|k: int| lo <= k && k + 1 < hi ==> #[trigger] box_order(s, v[k], v[k + 1], axis) != Ordering::Greater
}

/// Sorts `objects` by `box_compare` along `axis` (insertion sort, which only
/// ever swaps a pair that compares `Greater`). The result is a permutation;
/// where every box is well formed along `axis`, no two neighbours in it
/// compare `Greater`.
fn sort_by_box(scene: &LinearSceneBvh, objects: &mut Vec<LinearHittable>, axis: usize)
    requires
        axis < 3,
        forall|k: int| 0 <= k < old(objects)@.len() ==> leaf_valid(scene, #[trigger] old(objects)@[k]),
    ensures
        final(objects)@.to_multiset() == old(objects)@.to_multiset(),
        final(objects)@.len() == old(objects)@.len(),
        forall|k: int| 0 <= k < final(objects)@.len() ==> leaf_valid(scene, #[trigger] final(objects)@[k]),
        (forall|k: int| 0 <= k < old(objects)@.len() ==> wf_on(scene, #[trigger] old(objects)@[k], axis as int))
            ==> sorted_on(scene, final(objects)@, axis as int, 0, final(objects)@.len() as int),
{
    let ghost w = forall|k: int| 0 <= k < old(objects)@.len() ==> wf_on(scene, #[trigger] old(objects)@[k], axis as int);
    let n = objects.len();
    let mut i: usize = 1;
    while i < n
        invariant
            n == objects@.len(),
            axis < 3,
            objects@.to_multiset() == old(objects)@.to_multiset(),
            forall|k: int| 0 <= k < objects@.len() ==> leaf_valid(scene, #[trigger] objects@[k]),
            w ==> forall|k: int| 0 <= k < objects@.len() ==> wf_on(scene, #[trigger] objects@[k], axis as int),
            w ==> sorted_on(scene, objects@, axis as int, 0, if i <= n { i as int } else { n as int }),
        decreases n - i,
    {
        let mut j: usize = i;
        let mut moving = true;
        while moving && j > 0
            invariant
                n == objects@.len(),
                axis < 3,
                j <= i < n,
                objects@.to_multiset() == old(objects)@.to_multiset(),
                forall|k: int| 0 <= k < objects@.len() ==> leaf_valid(scene, #[trigger] objects@[k]),
                w ==> forall|k: int| 0 <= k < objects@.len() ==> wf_on(scene, #[trigger] objects@[k], axis as int),
                w ==> sorted_on(scene, objects@, axis as int, 0, j as int),
                w ==> sorted_on(scene, objects@, axis as int, j as int + 1, i as int + 1),
                w && j < i ==> box_order(scene, objects@[j as int], objects@[j + 1], axis as int)
                    != Ordering::Greater,
                w && 0 < j < i ==> box_order(scene, objects@[j - 1], objects@[j + 1], axis as int)
                    != Ordering::Greater,
                !moving ==> j == 0 || box_order(scene, objects@[j - 1], objects@[j as int], axis as int)
                    != Ordering::Greater,
            decreases j + if moving { 1int } else { 0int },
        {
            match box_compare(scene, &objects[j - 1], &objects[j], axis) {
                Ordering::Greater => {
                    let a = objects[j - 1];
                    let b = objects[j];
                    let ghost s0 = objects@;
                    objects.set(j - 1, b);
                    let ghost s1 = objects@;
                    objects.set(j, a);
                    proof {
                        broadcast use to_multiset_update;

                        s0.to_multiset_ensures();
                        assert(s0[j - 1] == a && s0.contains(a));
                        assert(s1[j as int] == b);
                        assert(s1.to_multiset() =~= s0.to_multiset().insert(b).remove(a));
                        assert(objects@.to_multiset() =~= s1.to_multiset().insert(a).remove(b));
                        assert(objects@.to_multiset() =~= s0.to_multiset());
                        assert(forall|k: int| 0 <= k < n && k != j - 1 && k != j ==> objects@[k] == s0[k]);
                        assert(objects@ == s0.update(j - 1, s0[j as int]).update(j as int, s0[j - 1]));
                        if w {
                            lemma_swap_step(scene, s0, objects@, j as int, i as int, axis as int);
                        }
                    }
                    j = j - 1;
                },
                _ => {
                    moving = false;
                },
            }
        }
        proof {
            if w {
                let v = objects@;
                let jj = j as int;
                assert forall|k: int| 0 <= k && k + 1 < i + 1 implies #[trigger] box_order(scene, v[k], v[k + 1], axis as int) != Ordering::Greater by {
                    if k < jj - 1 {
                        assert(sorted_on(scene, v, axis as int, 0, jj));
                    } else if k > jj {
                        assert(sorted_on(scene, v, axis as int, jj + 1, i + 1));
                    }
                }
            }
        }
        i = i + 1;
    }
}

/// The number of internal nodes that construction makes over `n` leaves: one
/// for each call, and a call on three or more leaves splits them at the middle.
pub open spec fn built_nodes(n: nat) -> nat
    decreases n,
{
    if n <= 2 {
        1
    } else {
        1 + built_nodes(n / 2) + built_nodes((n - n / 2) as nat)
    }
}

pub proof fn lemma_built_nodes_bound(n: nat)
    requires
        n >= 1,
    ensures
        built_nodes(n) <= 2 * n - 1,
    decreases n,
{
    if n > 2 {
        lemma_built_nodes_bound(n / 2);
        lemma_built_nodes_bound((n - n / 2) as nat);
    }
}

/// A tree built over `objects` in `s1`, starting from `s0`: only nodes were
/// appended, the tree refers to exactly those nodes and to `objects`, and each
/// node's box surrounds its children's.
pub open spec fn built_over(
    s0: &LinearSceneBvh,
    s1: &LinearSceneBvh,
    objects: Seq<LinearHittable>,
    r: SceneBvhConstructionNode,
) -> bool {
    &&& same_geometry(s0, s1)
    &&& s1.hittables@ == s0.hittables@
    &&& s1.bvh_nodes@.len() == s0.bvh_nodes@.len() + tree_nodes(r)
    &&& forall|i: int| 0 <= i < s0.bvh_nodes@.len() ==> #[trigger] s1.bvh_nodes@[i] == s0.bvh_nodes@[i]
    &&& tree_wf(r)
    &&& r.hittable.geometry_type == BVH_NODE
    &&& tree_valid(s1, r)
    &&& tree_boxes(s1, r)
    &&& ids_distinct(r)
    &&& forall|id: int| #[trigger] tree_ids(r).contains(id) ==> s0.bvh_nodes@.len() <= id < s1.bvh_nodes@.len()
    &&& tree_leaves(r) == objects.to_multiset()
    &&& tree_nodes(r) == built_nodes(objects.len())
    &&& is_hull(s1, hittable_box(s1, r.hittable), objects.to_multiset())
}

/// The box stored for a new node over `left` and `right` is the hull of
/// their leaves.
proof fn lemma_node_hull(
    s2: &LinearSceneBvh,
    s3: &LinearSceneBvh,
    left: SceneBvhConstructionNode,
    right: Option<SceneBvhConstructionNode>,
    bx: Aabb,
)
    requires
        same_geometry(s2, s3),
        is_hull(s2, hittable_box(s2, left.hittable), tree_leaves(left)),
        all_leaves_in(tree_leaves(left)),
        right is Some ==> is_hull(s2, hittable_box(s2, right->0.hittable), tree_leaves(right->0)),
        right is Some ==> all_leaves_in(tree_leaves(right->0)),
        bx == match right {
            None => hittable_box(s2, left.hittable),
            Some(r) => union_box(hittable_box(s2, left.hittable), hittable_box(s2, r.hittable)),
        },
    ensures
        is_hull(s3, bx, match right {
            None => tree_leaves(left),
            Some(r) => tree_leaves(left).add(tree_leaves(r)),
        }),
{
    lemma_hull_frame(s2, s3, hittable_box(s2, left.hittable), tree_leaves(left));
    if right is Some {
        let r = right->0;
        lemma_hull_frame(s2, s3, hittable_box(s2, r.hittable), tree_leaves(r));
        lemma_hull_union(
            s3,
            hittable_box(s2, left.hittable),
            tree_leaves(left),
            hittable_box(s2, r.hittable),
            tree_leaves(r),
        );
    }
}

proof fn lemma_leaves_in(s: &LinearSceneBvh, objects: Seq<LinearHittable>)
    requires
        forall|k: int| 0 <= k < objects.len() ==> leaf_valid(s, #[trigger] objects[k]),
    ensures
        all_leaves_in(objects.to_multiset()),
{
    broadcast use vstd::seq_lib::group_to_multiset_ensures;

    assert forall|x: LinearHittable| #[trigger] objects.to_multiset().count(x) > 0 implies is_leaf(x) by {
        assert(objects.contains(x));
        let k = choose|k: int| 0 <= k < objects.len() && objects[k] == x;
        assert(leaf_valid(s, objects[k]));
    }
}

proof fn lemma_leaf(s: &LinearSceneBvh, n: SceneBvhConstructionNode)
    requires
        n.left is None,
        n.right is None,
        leaf_valid(s, n.hittable),
    ensures
        tree_wf(n),
        tree_valid(s, n),
        tree_boxes(s, n),
        ids_distinct(n),
        tree_ids(n) == Set::<int>::empty(),
        tree_leaves(n) == Multiset::singleton(n.hittable),
        tree_nodes(n) == 0,
{
}

/// A tree over exactly two leaves has them as its children, the one whose
/// box compares `Less` against the other along `axis` on the left.
pub open spec fn split_pair(
    s: &LinearSceneBvh,
    objects: Seq<LinearHittable>,
    axis: int,
    r: SceneBvhConstructionNode,
) -> bool {
    let first = if box_order(s, objects[0], objects[1], axis) == Ordering::Less {
        objects[0]
    } else {
        objects[1]
    };
    let second = if box_order(s, objects[0], objects[1], axis) == Ordering::Less {
        objects[1]
    } else {
        objects[0]
    };
    &&& r.left is Some && r.left->0.hittable == first
    &&& r.right is Some && r.right->0.hittable == second
}

/// Some hittable of `leaves` has its box's minimum on axis `i` at `b`'s
/// minimum, and some has its maximum at `b`'s maximum.
pub open spec fn attains(s: &LinearSceneBvh, b: Aabb, leaves: Multiset<LinearHittable>, i: int) -> bool {
    &&& exists|x: LinearHittable| #[trigger] leaves.count(x) > 0 && hittable_box(s, x).min[i] == b.min[i]
    &&& exists|x: LinearHittable| #[trigger] leaves.count(x) > 0 && hittable_box(s, x).max[i] == b.max[i]
}

/// `b` is the smallest box around the boxes of `leaves`: it encloses each of
/// them and each of its faces touches one of them.
pub open spec fn is_hull(s: &LinearSceneBvh, b: Aabb, leaves: Multiset<LinearHittable>) -> bool {
    &&& forall|x: LinearHittable| #[trigger] leaves.count(x) > 0 ==> contains(b, hittable_box(s, x))
    &&& attains(s, b, leaves, 0)
    &&& attains(s, b, leaves, 1)
    &&& attains(s, b, leaves, 2)
}

/// Every member of `leaves` is a primitive.
pub open spec fn all_leaves_in(leaves: Multiset<LinearHittable>) -> bool {
    forall|x: LinearHittable| #[trigger] leaves.count(x) > 0 ==> is_leaf(x)
}

proof fn lemma_hull_single(s: &LinearSceneBvh, x: LinearHittable)
    ensures
        is_hull(s, hittable_box(s, x), Multiset::singleton(x)),
{
    let m = Multiset::singleton(x);
    assert(m.count(x) > 0);
    assert forall|y: LinearHittable| #[trigger] m.count(y) > 0 implies contains(hittable_box(s, x), hittable_box(s, y)) by {
        assert(y == x);
    }
}

proof fn lemma_hull_union(
    s: &LinearSceneBvh,
    b1: Aabb,
    l1: Multiset<LinearHittable>,
    b2: Aabb,
    l2: Multiset<LinearHittable>,
)
    requires
        is_hull(s, b1, l1),
        is_hull(s, b2, l2),
    ensures
        is_hull(s, union_box(b1, b2), l1.add(l2)),
{
    let u = union_box(b1, b2);
    let l = l1.add(l2);
    lemma_union_contains(b1, b2);
    assert forall|x: LinearHittable| #[trigger] l.count(x) > 0 implies contains(u, hittable_box(s, x)) by {
        if l1.count(x) > 0 {
            lemma_contains_trans(u, b1, hittable_box(s, x));
        } else {
            lemma_contains_trans(u, b2, hittable_box(s, x));
        }
    }
    assert forall|i: int| 0 <= i < 3 implies attains(s, u, l, i) by {
        assert(attains(s, b1, l1, i) && attains(s, b2, l2, i));
        let x1 = choose|x: LinearHittable| #[trigger] l1.count(x) > 0 && hittable_box(s, x).min[i] == b1.min[i];
        let x2 = choose|x: LinearHittable| #[trigger] l2.count(x) > 0 && hittable_box(s, x).min[i] == b2.min[i];
        let y1 = choose|x: LinearHittable| #[trigger] l1.count(x) > 0 && hittable_box(s, x).max[i] == b1.max[i];
        let y2 = choose|x: LinearHittable| #[trigger] l2.count(x) > 0 && hittable_box(s, x).max[i] == b2.max[i];
        assert(l.count(x1) > 0 && l.count(x2) > 0 && l.count(y1) > 0 && l.count(y2) > 0);
        assert(i == 0 || i == 1 || i == 2);
    }
}

pub proof fn lemma_hull_frame(a: &LinearSceneBvh, b: &LinearSceneBvh, bx: Aabb, l: Multiset<LinearHittable>)
    requires
        same_geometry(a, b),
        all_leaves_in(l),
        is_hull(a, bx, l),
    ensures
        is_hull(b, bx, l),
{
    assert forall|x: LinearHittable| #[trigger] l.count(x) > 0 implies hittable_box(a, x) == hittable_box(b, x) by {
        lemma_same_geometry_leaf(a, b, x);
    }
    assert forall|i: int| 0 <= i < 3 implies attains(b, bx, l, i) by {
        assert(attains(a, bx, l, i));
        let x1 = choose|x: LinearHittable| #[trigger] l.count(x) > 0 && hittable_box(a, x).min[i] == bx.min[i];
        let y1 = choose|x: LinearHittable| #[trigger] l.count(x) > 0 && hittable_box(a, x).max[i] == bx.max[i];
        assert(hittable_box(a, x1) == hittable_box(b, x1));
        assert(hittable_box(a, y1) == hittable_box(b, y1));
    }
}

proof fn lemma_hull_axis(s: &LinearSceneBvh, ba: Aabb, bb: Aabb, l: Multiset<LinearHittable>, i: int)
    requires
        0 <= i < 3,
        is_hull(s, ba, l),
        is_hull(s, bb, l),
    ensures
        ba.min[i] == bb.min[i],
        ba.max[i] == bb.max[i],
{
    assert(attains(s, ba, l, i) && attains(s, bb, l, i)) by {
        assert(i == 0 || i == 1 || i == 2);
    }
    let x1 = choose|x: LinearHittable| #[trigger] l.count(x) > 0 && hittable_box(s, x).min[i] == ba.min[i];
    let x2 = choose|x: LinearHittable| #[trigger] l.count(x) > 0 && hittable_box(s, x).min[i] == bb.min[i];
    let y1 = choose|x: LinearHittable| #[trigger] l.count(x) > 0 && hittable_box(s, x).max[i] == ba.max[i];
    let y2 = choose|x: LinearHittable| #[trigger] l.count(x) > 0 && hittable_box(s, x).max[i] == bb.max[i];
    assert(contains(ba, hittable_box(s, x2)) && contains(bb, hittable_box(s, x1)));
    assert(contains(ba, hittable_box(s, y2)) && contains(bb, hittable_box(s, y1)));
    assert(i == 0 || i == 1 || i == 2);
}

/// Two hulls of the same primitives, in scenes of the same geometry, are the
/// same box.
pub proof fn lemma_hull_unique(
    a: &LinearSceneBvh,
    b: &LinearSceneBvh,
    ba: Aabb,
    bb: Aabb,
    l: Multiset<LinearHittable>,
)
    requires
        same_geometry(a, b),
        all_leaves_in(l),
        is_hull(a, ba, l),
        is_hull(b, bb, l),
    ensures
        ba == bb,
{
    lemma_hull_frame(a, b, ba, l);
    lemma_hull_axis(b, ba, bb, l, 0);
    lemma_hull_axis(b, ba, bb, l, 1);
    lemma_hull_axis(b, ba, bb, l, 2);
    assert(ba.min =~= bb.min);
    assert(ba.max =~= bb.max);
}

/// Two primitives whose boxes are well formed and apart along x are split
/// along x with the one further towards -x on the left: the left child's box
/// starts no further along x than the right child's.
pub proof fn lemma_two_leaf_order(
    s: &LinearSceneBvh,
    objects: Seq<LinearHittable>,
    r: SceneBvhConstructionNode,
)
    requires
        objects.len() == 2,
        split_pair(s, objects, 0, r),
        hittable_box(s, objects[0]).min[0] <= hittable_box(s, objects[0]).max[0],
        hittable_box(s, objects[1]).min[0] <= hittable_box(s, objects[1]).max[0],
        hittable_box(s, objects[0]).max[0] < hittable_box(s, objects[1]).min[0]
            || hittable_box(s, objects[1]).max[0] < hittable_box(s, objects[0]).min[0],
    ensures
        hittable_box(s, r.left->0.hittable).min[0] <= hittable_box(s, r.right->0.hittable).min[0],
{
    reveal(box_order);
}

/// One of the two horizontal axes, x (0) or z (2), drawn at random.
fn random_horizontal_axis() -> (r: usize)
    ensures
        r == 0 || r == 2,
{
    let a = random_int(0, 1);
    if a == 1 {
        2
    } else {
        0
    }
}

/// The leaves of the trees of a sequence, together.
pub open spec fn forest_leaves(q: Seq<SceneBvhConstructionNode>) -> Multiset<LinearHittable>
    decreases q.len(),
{
    if q.len() == 0 {
        Multiset::empty()
    } else {
        forest_leaves(q.drop_last()).add(tree_leaves(q.last()))
    }
}

/// The internal nodes of the trees of a sequence, counted together.
pub open spec fn forest_nodes(q: Seq<SceneBvhConstructionNode>) -> nat
    decreases q.len(),
{
    if q.len() == 0 {
        0
    } else {
        forest_nodes(q.drop_last()) + tree_nodes(q.last())
    }
}

/// The nodes of the trees of a sequence, counted together.
pub open spec fn forest_size(q: Seq<SceneBvhConstructionNode>) -> nat
    decreases q.len(),
{
    if q.len() == 0 {
        0
    } else {
        forest_size(q.drop_last()) + tree_size(q.last())
    }
}

proof fn lemma_forest_push(q: Seq<SceneBvhConstructionNode>, x: SceneBvhConstructionNode)
    ensures
        forest_leaves(q.push(x)) == forest_leaves(q).add(tree_leaves(x)),
        forest_nodes(q.push(x)) == forest_nodes(q) + tree_nodes(x),
        forest_size(q.push(x)) == forest_size(q) + tree_size(x),
{
    assert(q.push(x).drop_last() =~= q);
}

proof fn lemma_forest_first(q: Seq<SceneBvhConstructionNode>)
    requires
        q.len() > 0,
    ensures
        forest_leaves(q) == tree_leaves(q[0]).add(forest_leaves(q.drop_first())),
        forest_nodes(q) == tree_nodes(q[0]) + forest_nodes(q.drop_first()),
        forest_size(q) == tree_size(q[0]) + forest_size(q.drop_first()),
        forest_size(q) >= q.len(),
    decreases q.len(),
{
    if q.len() > 1 {
        lemma_forest_first(q.drop_last());
        assert(q.drop_last().drop_first() =~= q.drop_first().drop_last());
        assert(forest_leaves(q) =~= tree_leaves(q[0]).add(forest_leaves(q.drop_first())));
        lemma_tree_size_pos(q.last());
    } else {
        assert(q.drop_last() =~= Seq::<SceneBvhConstructionNode>::empty());
        assert(q.drop_first() =~= Seq::<SceneBvhConstructionNode>::empty());
        assert(forest_leaves(q) =~= tree_leaves(q[0]).add(forest_leaves(q.drop_first())));
        lemma_tree_size_pos(q[0]);
    }
}

proof fn lemma_tree_size_pos(n: SceneBvhConstructionNode)
    ensures
        tree_size(n) >= 1,
{
}

proof fn lemma_forest_size_len(q: Seq<SceneBvhConstructionNode>)
    ensures
        forest_size(q) >= q.len(),
    decreases q.len(),
{
    if q.len() > 0 {
        lemma_forest_size_len(q.drop_last());
        lemma_tree_size_pos(q.last());
    }
}

/// Taking internal node `h` off the queue and appending its children keeps
/// the queued subtrees disjoint and clear of the node entries already patched.
proof fn lemma_queue_step(q: Seq<SceneBvhConstructionNode>, q2: Seq<SceneBvhConstructionNode>, h: int)
    requires
        0 <= h < q.len(),
        q[h].left is Some,
        ids_distinct(q[h]),
        q2 == (if q[h].right is Some {
            q.push(*q[h].left->0).push(*q[h].right->0)
        } else {
            q.push(*q[h].left->0)
        }),
        forall|j: int, k: int|
            h <= j < k < q.len() ==> #[trigger] tree_ids(q[j]).disjoint(#[trigger] tree_ids(q[k])),
        forall|j: int, k: int|
            0 <= j < h <= k < q.len() && q[j].left is Some ==> !(#[trigger] tree_ids(q[k])).contains(
                #[trigger] q[j].hittable.scene_index as int,
            ),
    ensures
        forall|j: int, k: int|
            h + 1 <= j < k < q2.len() ==> #[trigger] tree_ids(q2[j]).disjoint(#[trigger] tree_ids(q2[k])),
        forall|j: int, k: int|
            0 <= j < h + 1 <= k < q2.len() && q2[j].left is Some ==> !(#[trigger] tree_ids(
                q2[k],
            )).contains(#[trigger] q2[j].hittable.scene_index as int),
{
    let cur = q[h];
    let l = *cur.left->0;
    let own = cur.hittable.scene_index as int;
    assert(tree_ids(cur).contains(own));
    assert(forall|x: int| tree_ids(l).contains(x) ==> tree_ids(cur).contains(x));
    assert(!tree_ids(l).contains(own));
    if cur.right is Some {
        let r = *cur.right->0;
        assert(forall|x: int| tree_ids(r).contains(x) ==> tree_ids(cur).contains(x));
        assert(!tree_ids(r).contains(own));
        assert(tree_ids(l).disjoint(tree_ids(r)));
    }
    assert forall|j: int| 0 <= j < q.len() implies q2[j] == q[j] by {}
    assert forall|j: int, k: int| h + 1 <= j < k < q2.len() implies #[trigger] tree_ids(
        q2[j],
    ).disjoint(#[trigger] tree_ids(q2[k])) by {
        if k < q.len() {
            assert(tree_ids(q[j]).disjoint(tree_ids(q[k])));
        } else if j < q.len() {
            assert(tree_ids(q[h]).disjoint(tree_ids(q[j])));
        }
    }
    assert forall|j: int, k: int|
        0 <= j < h + 1 <= k < q2.len() && q2[j].left is Some implies !(#[trigger] tree_ids(
        q2[k],
    )).contains(#[trigger] q2[j].hittable.scene_index as int) by {
        if j < h {
            assert(!tree_ids(q[h]).contains(q[j].hittable.scene_index as int));
        } else if k < q.len() {
            assert(tree_ids(q[h]).disjoint(tree_ids(q[k])));
        }
    }
}

/// A tree's nodes are its internal nodes and its leaves.
pub proof fn lemma_tree_size_split(n: SceneBvhConstructionNode)
    requires
        tree_wf(n),
    ensures
        tree_size(n) == tree_nodes(n) + tree_leaves(n).len(),
    decreases n,
{
    match n.left {
        None => {},
        Some(l) => {
            lemma_tree_size_split(*l);
            match n.right {
                None => {},
                Some(r) => {
                    lemma_tree_size_split(*r);
                },
            }
        },
    }
}

/// The non-node entries of a hittable array.
pub open spec fn flat_leaves(h: Seq<LinearHittable>) -> Multiset<LinearHittable>
    decreases h.len(),
{
    if h.len() == 0 {
        Multiset::empty()
    } else if is_leaf(h.last()) {
        flat_leaves(h.drop_last()).insert(h.last())
    } else {
        flat_leaves(h.drop_last())
    }
}

/// The number of node entries of a hittable array.
pub open spec fn flat_nodes(h: Seq<LinearHittable>) -> nat
    decreases h.len(),
{
    if h.len() == 0 {
        0
    } else if is_leaf(h.last()) {
        flat_nodes(h.drop_last())
    } else {
        flat_nodes(h.drop_last()) + 1
    }
}

/// The node entry that hittable `p` refers to has its left child, and its
/// right child unless that is `NULL_INDEX`, at later positions of the hittable
/// array, and its box surrounds theirs.
pub open spec fn node_children_ok(s: &LinearSceneBvh, p: int) -> bool {
    let h = s.hittables@[p];
    let n = s.bvh_nodes@[h.scene_index as int];
    let len = s.hittables@.len();
    &&& h.scene_index < s.bvh_nodes@.len()
    &&& p < n.left_hittable < len
    &&& n.right_hittable == NULL_INDEX || p < n.right_hittable < len
    &&& n.aabb == children_box(
        s,
        s.hittables@[n.left_hittable as int],
        if n.right_hittable == NULL_INDEX {
            None
        } else {
            Some(s.hittables@[n.right_hittable as int])
        },
    )
}

/// Hittable `c` is a child of hittable `p`: `p` refers to a node entry whose
/// left or right child is position `c`.
pub open spec fn is_child(s: &LinearSceneBvh, p: int, c: int) -> bool {
    let n = s.bvh_nodes@[s.hittables@[p].scene_index as int];
    &&& !is_leaf(s.hittables@[p])
    &&& (n.left_hittable == c || n.right_hittable == c)
}

/// Hittable `c` is the child of an earlier hittable.
pub open spec fn has_parent(s: &LinearSceneBvh, c: int) -> bool {
    exists|p: int| 0 <= p < c && #[trigger] is_child(s, p, c)
}

/// The scene holds a flattened hierarchy: its first hittable is the root,
/// every other one is a child of an earlier one, every primitive it names
/// exists and every node entry it names points forward to its children and
/// surrounds them.
pub open spec fn flat_wf(s: &LinearSceneBvh) -> bool {
    &&& 1 <= s.hittables@.len() < NULL_INDEX
    &&& forall|c: int| 1 <= c < s.hittables@.len() ==> #[trigger] has_parent(s, c)
    &&& forall|p: int|
        0 <= p < s.hittables@.len() ==> if is_leaf(#[trigger] s.hittables@[p]) {
            leaf_valid(s, s.hittables@[p])
        } else {
            node_children_ok(s, p)
        }
}

/// Queue entry `j` was processed: its node entry points at the positions in
/// `q` of its children.
pub open spec fn patched(s: &LinearSceneBvh, q: Seq<SceneBvhConstructionNode>, j: int) -> bool {
    let n = s.bvh_nodes@[q[j].hittable.scene_index as int];
    &&& j < n.left_hittable < q.len()
    &&& q[n.left_hittable as int] == *q[j].left->0
    &&& match q[j].right {
        None => n.right_hittable == NULL_INDEX,
        Some(r) => j < n.right_hittable < q.len() && q[n.right_hittable as int] == *r
            && n.right_hittable == n.left_hittable + 1,
    }
}

/// The left child index of the node entry that hittable `p` refers to.
pub open spec fn left_of(s: &LinearSceneBvh, p: int) -> int {
    s.bvh_nodes@[s.hittables@[p].scene_index as int].left_hittable as int
}

/// The right child index of the node entry that hittable `p` refers to.
pub open spec fn right_of(s: &LinearSceneBvh, p: int) -> int {
    s.bvh_nodes@[s.hittables@[p].scene_index as int].right_hittable as int
}

/// The hittable array is in breadth-first order: the two children of a node
/// sit side by side, left then right, and the children of an earlier node
/// come before those of a later one.
pub open spec fn bfs_layout(s: &LinearSceneBvh) -> bool {
    &&& forall|p: int|
        0 <= p < s.hittables@.len() && !is_leaf(s.hittables@[p]) ==> #[trigger] right_of(s, p)
            == NULL_INDEX || right_of(s, p) == left_of(s, p) + 1
    &&& forall|p: int, c: int|
        0 <= p < c < s.hittables@.len() && !is_leaf(s.hittables@[p]) && !is_leaf(s.hittables@[c])
            ==> #[trigger] left_of(s, p) < #[trigger] left_of(s, c)
}

fn clone_child(c: &Option<Box<SceneBvhConstructionNode>>) -> (r: Option<SceneBvhConstructionNode>)
    ensures
        r == match c {
            Some(b) => Some(**b),
            None => None,
        },
{
    match c {
        Some(b) => Some(b.clone_tree()),
        None => None,
    }
}

impl SceneBvhConstructionNode {
    /// A copy of the whole tree.
    pub fn clone_tree(&self) -> (r: Self)
        ensures
            r == *self,
        decreases self,
    {
        let left = match &self.left {
            Some(l) => Some(Box::new(l.clone_tree())),
            None => None,
        };
        let right = match &self.right {
            Some(r) => Some(Box::new(r.clone_tree())),
            None => None,
        };
        SceneBvhConstructionNode { left, right, hittable: self.hittable }
    }

    /// Builds the tree over `source_objects`, splitting each node along x or
    /// z at random, and appends one node entry per internal node to the scene.
    pub fn new(scene: &mut LinearSceneBvh, source_objects: &[LinearHittable]) -> (r: Self)
        requires
            source_objects@.len() >= 1,
            forall|k: int|
                0 <= k < source_objects@.len() ==> leaf_valid(old(scene), #[trigger] source_objects@[k]),
            old(scene).bvh_nodes@.len() + 2 * source_objects@.len() < NULL_INDEX,
        ensures
            built_over(old(scene), final(scene), source_objects@, r),
    {
        Self::build(scene, vstd::slice::slice_to_vec(source_objects), None)
    }

    /// Builds the tree over `source_objects` as `new` does, splitting every
    /// node along the given axis.
    pub fn new_on_axis(scene: &mut LinearSceneBvh, source_objects: &[LinearHittable], axis: usize) -> (r:
        Self)
        requires
            source_objects@.len() >= 1,
            forall|k: int|
                0 <= k < source_objects@.len() ==> leaf_valid(old(scene), #[trigger] source_objects@[k]),
            old(scene).bvh_nodes@.len() + 2 * source_objects@.len() < NULL_INDEX,
            axis < 3,
        ensures
            built_over(old(scene), final(scene), source_objects@, r),
            source_objects@.len() == 2 ==> split_pair(final(scene), source_objects@, axis as int, r),
    {
        Self::build(scene, vstd::slice::slice_to_vec(source_objects), Some(axis))
    }

    /// A leaf over a primitive.
    pub fn leaf(hittable: LinearHittable) -> (r: Self)
        ensures
            r.left is None,
            r.right is None,
            r.hittable == hittable,
    {
        SceneBvhConstructionNode { left: None, right: None, hittable }
    }

    /// Builds the tree over `objects`, appending one node entry per internal
    /// node to the scene. Splits along `fixed_axis` when given, else along a
    /// random horizontal axis at each node.
    #[verifier::rlimit(80)]
    fn build(scene: &mut LinearSceneBvh, objects: Vec<LinearHittable>, fixed_axis: Option<usize>) -> (r:
        Self)
        requires
            objects@.len() >= 1,
            forall|k: int| 0 <= k < objects@.len() ==> leaf_valid(old(scene), #[trigger] objects@[k]),
            old(scene).bvh_nodes@.len() + 2 * objects@.len() < NULL_INDEX,
            match fixed_axis {
                Some(a) => a < 3,
                None => true,
            },
        ensures
            built_over(old(scene), final(scene), objects@, r),
            objects@.len() == 2 && fixed_axis is Some ==> split_pair(
                final(scene),
                objects@,
                fixed_axis->0 as int,
                r,
            ),
        decreases objects@.len(),
    {
        let ghost s0 = *old(scene);
        let ghost all = objects@;
        let mut objects = objects;
        let axis = match fixed_axis {
            Some(a) => a,
            None => random_horizontal_axis(),
        };
        let left: SceneBvhConstructionNode;
        let mut right: Option<SceneBvhConstructionNode> = None;
        if objects.len() == 1 {
            left = Self::leaf(objects[0]);
            proof {
                assert(leaf_valid(scene, all[0]));
                assert(all =~= seq![all[0]]);
                assert(all.to_multiset() =~= Multiset::singleton(all[0])) by {
                    broadcast use vstd::seq_lib::group_to_multiset_ensures;
                    assert(seq![all[0]] =~= Seq::<LinearHittable>::empty().push(all[0]));
                }
            }
        } else if objects.len() == 2 {
            let a = objects[0];
            let b = objects[1];
            assert(leaf_valid(scene, all[0]) && leaf_valid(scene, all[1]));
            match box_compare(scene, &a, &b, axis) {
                Ordering::Less => {
                    left = Self::leaf(a);
                    right = Some(Self::leaf(b));
                },
                _ => {
                    left = Self::leaf(b);
                    right = Some(Self::leaf(a));
                },
            }
            proof {
                broadcast use vstd::seq_lib::group_to_multiset_ensures;
                assert(all =~= Seq::<LinearHittable>::empty().push(a).push(b));
                assert(all.to_multiset() =~= Multiset::singleton(a).add(Multiset::singleton(b)));
                assert(all.to_multiset() =~= Multiset::singleton(b).add(Multiset::singleton(a)));
            }
        } else {
            sort_by_box(scene, &mut objects, axis);
            let ghost sorted = objects@;
            let mid = objects.len() / 2;
            let upper = objects.split_off(mid);
            proof {
                assert(sorted =~= objects@ + upper@);
                lemma_multiset_commutative(objects@, upper@);
                lemma_built_nodes_bound(objects@.len());
                lemma_built_nodes_bound(upper@.len());
            }
            let ghost s_before_left = *scene;
            let ghost objects_lower = objects@;
            let ghost upper_all = upper@;
            left = Self::build(scene, objects, fixed_axis);
            let ghost s_after_left = *scene;
            assert forall|k: int| 0 <= k < upper@.len() implies leaf_valid(scene, #[trigger] upper@[k]) by {
                assert(leaf_valid(&s_before_left, upper@[k]));
            }
            right = Some(Self::build(scene, upper, fixed_axis));
            proof {
                assert(boxes_kept(&s_after_left, scene));
                lemma_tree_frame(&s_after_left, scene, left);
                assert(tree_leaves(left).add(tree_leaves(right->0)) =~= all.to_multiset());
                lemma_leaves_in(&s_before_left, objects_lower);
                lemma_leaves_in(&s_before_left, upper_all);
                lemma_box_kept(&s_after_left, scene, left.hittable);
                lemma_hull_frame(&s_after_left, scene, hittable_box(scene, left.hittable), tree_leaves(left));
            }
        }
        let ghost s2 = *scene;
        proof {
            if all.len() <= 2 {
                lemma_leaf(scene, left);
                lemma_hull_single(scene, left.hittable);
                assert(is_leaf(left.hittable));
                assert(all_leaves_in(tree_leaves(left)));
                if right is Some {
                    lemma_leaf(scene, right->0);
                    lemma_hull_single(scene, right->0.hittable);
                    assert(is_leaf(right->0.hittable));
                    assert(all_leaves_in(tree_leaves(right->0)));
                }
            }
            assert(is_hull(scene, hittable_box(scene, left.hittable), tree_leaves(left)));
            assert(all_leaves_in(tree_leaves(left)));
            if right is Some {
                assert(is_hull(scene, hittable_box(scene, right->0.hittable), tree_leaves(right->0)));
                assert(all_leaves_in(tree_leaves(right->0)));
            }
            lemma_tree_valid_hittable(scene, left);
        }
        let box_left = left.hittable.bounding_box(scene);
        let box_surround = match &right {
            Some(r) => {
                proof {
                    lemma_tree_valid_hittable(scene, *r);
                }
                let box_right = r.hittable.bounding_box(scene);
                surrounding_box(&box_left, &box_right)
            },
            None => box_left,
        };
        scene.bvh_nodes.push(BvhNode::new(NULL_INDEX, NULL_INDEX, box_surround));
        let index = (scene.bvh_nodes.len() - 1) as u32;
        let hittable = LinearHittable { geometry_type: BVH_NODE, scene_index: index };
        proof {
            assert(boxes_kept(&s2, scene));
            lemma_tree_frame(&s2, scene, left);
            lemma_box_kept(&s2, scene, left.hittable);
            if right is Some {
                lemma_tree_frame(&s2, scene, right->0);
                lemma_box_kept(&s2, scene, right->0.hittable);
            }
            lemma_node_hull(&s2, scene, left, right, box_surround);
        }
        let r = SceneBvhConstructionNode {
            left: Some(Box::new(left)),
            right: match right {
                Some(r) => Some(Box::new(r)),
                None => None,
            },
            hittable,
        };
        proof {
            if right is Some {
                assert(tree_leaves(r) == tree_leaves(left).add(tree_leaves(right->0)));
            } else {
                assert(tree_leaves(r) == tree_leaves(left));
            }
            assert(tree_wf(r));
            assert(tree_valid(scene, r));
            assert(tree_boxes(scene, r));
            assert(ids_distinct(r));
            assert(tree_nodes(r) == built_nodes(all.len()));
            assert(forall|id: int| #[trigger] tree_ids(r).contains(id) ==> s0.bvh_nodes@.len() <= id
                < scene.bvh_nodes@.len());
            assert(scene.bvh_nodes@.len() == s0.bvh_nodes@.len() + tree_nodes(r));
            assert(hittable_box(scene, r.hittable) == box_surround);
            if all.len() == 2 {
                lemma_box_order_frame(&s0, scene, all[0], all[1], axis as int);
            }
        }
        r
    }

    /// Flattens the tree breadth first into the scene: the hittable array
    /// becomes the tree's nodes in breadth-first order, so the root lands at
    /// position 0, and each node entry is given the positions of its children.
    #[verifier::rlimit(60)]
    pub fn flatten(&self, scene: &mut LinearSceneBvh)
        requires
            tree_wf(*self),
            tree_valid(old(scene), *self),
            tree_boxes(old(scene), *self),
            ids_distinct(*self),
            tree_size(*self) < NULL_INDEX,
        ensures
            same_geometry(old(scene), final(scene)),
            final(scene).bvh_nodes@.len() == old(scene).bvh_nodes@.len(),
            forall|i: int|
                0 <= i < old(scene).bvh_nodes@.len() ==> (#[trigger] final(scene).bvh_nodes@[i]).aabb
                    == old(scene).bvh_nodes@[i].aabb,
            flat_wf(final(scene)),
            bfs_layout(final(scene)),
            final(scene).hittables@[0] == self.hittable,
            final(scene).hittables@.len() == tree_size(*self),
            flat_leaves(final(scene).hittables@) == tree_leaves(*self),
            flat_nodes(final(scene).hittables@) == tree_nodes(*self),
    {
        let ghost s0 = *old(scene);
        let mut flat_bvh_hittables: Vec<LinearHittable> = Vec::new();
        // The queue keeps every node it was given; `head` is the next to leave it.
        let mut queue: Vec<SceneBvhConstructionNode> = Vec::new();
        queue.push(self.clone_tree());
        let mut head: usize = 0;
        let ghost mut parent: Seq<int> = seq![0int];
        proof {
            assert(queue@.subrange(0, 1) =~= Seq::<SceneBvhConstructionNode>::empty().push(*self));
            lemma_forest_push(Seq::<SceneBvhConstructionNode>::empty(), *self);
            assert(forest_leaves(Seq::<SceneBvhConstructionNode>::empty()) =~= Multiset::empty());
            assert(flat_leaves(flat_bvh_hittables@) =~= Multiset::empty());
            assert(flat_leaves(flat_bvh_hittables@).add(forest_leaves(queue@.subrange(0, 1)))
                =~= tree_leaves(*self));
        }
        while head < queue.len()
            invariant
                same_geometry(&s0, scene),
                scene.hittables@ == s0.hittables@,
                scene.bvh_nodes@.len() == s0.bvh_nodes@.len(),
                forall|i: int|
                    0 <= i < s0.bvh_nodes@.len() ==> (#[trigger] scene.bvh_nodes@[i]).aabb
                        == s0.bvh_nodes@[i].aabb,
                1 <= queue@.len(),
                head <= queue@.len(),
                flat_bvh_hittables@.len() == head,
                queue@[0] == *self,
                forall|j: int|
                    0 <= j < head ==> #[trigger] flat_bvh_hittables@[j] == queue@[j].hittable,
                forall|j: int|
                    0 <= j < queue@.len() ==> {
                        &&& tree_wf(#[trigger] queue@[j])
                        &&& tree_valid(&s0, queue@[j])
                        &&& tree_boxes(&s0, queue@[j])
                        &&& ids_distinct(queue@[j])
                    },
                forall|j: int, k: int|
                    head <= j < k < queue@.len() ==> #[trigger] tree_ids(queue@[j]).disjoint(
                        #[trigger] tree_ids(queue@[k]),
                    ),
                forall|j: int, k: int|
                    0 <= j < head <= k < queue@.len() && queue@[j].left is Some ==> !(#[trigger] tree_ids(
                        queue@[k],
                    )).contains(#[trigger] queue@[j].hittable.scene_index as int),
                forall|j: int|
                    0 <= j < head && (#[trigger] queue@[j]).left is Some ==> patched(scene, queue@, j),
                forall|j: int, k: int|
                    0 <= j < k < head && queue@[j].left is Some && queue@[k].left is Some ==> (#[trigger] scene.bvh_nodes@[queue@[j].hittable.scene_index as int]).left_hittable
                        < (#[trigger] scene.bvh_nodes@[queue@[k].hittable.scene_index as int]).left_hittable,
                flat_leaves(flat_bvh_hittables@).add(
                    forest_leaves(queue@.subrange(head as int, queue@.len() as int)),
                ) == tree_leaves(*self),
                flat_nodes(flat_bvh_hittables@) + forest_nodes(
                    queue@.subrange(head as int, queue@.len() as int),
                ) == tree_nodes(*self),
                head + forest_size(queue@.subrange(head as int, queue@.len() as int)) == tree_size(
                    *self,
                ),
                queue@.len() - head <= forest_size(
                    queue@.subrange(head as int, queue@.len() as int),
                ),
                tree_size(*self) < NULL_INDEX,
                parent.len() == queue@.len(),
                forall|k: int|
                    1 <= k < queue@.len() ==> {
                        let j = #[trigger] parent[k];
                        let n = scene.bvh_nodes@[queue@[j].hittable.scene_index as int];
                        &&& 0 <= j < k
                        &&& j < head
                        &&& queue@[j].left is Some
                        &&& (n.left_hittable == k || n.right_hittable == k)
                    },
            decreases forest_size(queue@.subrange(head as int, queue@.len() as int)),
        {
            let ghost q = queue@;
            let ghost sb = *scene;
            let ghost h = head as int;
            let ghost fb = flat_bvh_hittables@;
            proof {
                lemma_forest_first(q.subrange(h, q.len() as int));
                assert(q.subrange(h, q.len() as int).drop_first() =~= q.subrange(h + 1, q.len() as int));
            }
            let current = queue[head].hittable;
            let left = clone_child(&queue[head].left);
            let right = clone_child(&queue[head].right);
            let ghost cur_internal = left is Some;
            let ghost cur_right = left is Some && right is Some;
            match left {
                Some(l) => {
                    queue.push(l);
                    // Breadth first, a child enqueued now is output after all
                    // that were output or are queued before it.
                    let index = (flat_bvh_hittables.len() + (queue.len() - (head + 1))) as u32;
                    let i = current.get_scene_index();
                    let mut node = scene.bvh_nodes[i];
                    node.set_left(index);
                    scene.bvh_nodes.set(i, node);
                    match right {
                        Some(r) => {
                            queue.push(r);
                            let index = (flat_bvh_hittables.len() + (queue.len() - (head + 1))) as u32;
                            let mut node = scene.bvh_nodes[i];
                            node.set_right(index);
                            scene.bvh_nodes.set(i, node);
                        },
                        None => {
                            let mut node = scene.bvh_nodes[i];
                            node.set_right(NULL_INDEX);
                            scene.bvh_nodes.set(i, node);
                        },
                    }
                },
                None => {},
            }
            flat_bvh_hittables.push(current);
            head = head + 1;
            proof {
                if cur_internal {
                    if cur_right {
                        parent = parent.push(h).push(h);
                    } else {
                        parent = parent.push(h);
                    }
                }
                let ghost own = q[h].hittable.scene_index as int;
                assert forall|k: int| 1 <= k < queue@.len() implies {
                    let j = #[trigger] parent[k];
                    let n = scene.bvh_nodes@[queue@[j].hittable.scene_index as int];
                    &&& 0 <= j < k
                    &&& j < head
                    &&& queue@[j].left is Some
                    &&& (n.left_hittable == k || n.right_hittable == k)
                } by {
                    if k < q.len() {
                        let j = parent[k];
                        assert(queue@[j] == q[j]);
                        if cur_internal {
                            assert(!tree_ids(q[h]).contains(q[j].hittable.scene_index as int));
                            assert(tree_ids(q[h]).contains(own));
                        }
                    } else {
                        assert(patched(scene, queue@, h));
                    }
                }
                assert(flat_bvh_hittables@.drop_last() =~= fb);
                let cur = q[h];
                let pend = q.subrange(h + 1, q.len() as int);
                assert forall|j: int| 0 <= j < q.len() implies queue@[j] == q[j] by {}
                if cur.left is Some {
                    let l = *cur.left->0;
                    let own = cur.hittable.scene_index as int;
                    assert(tree_ids(cur).contains(own));
                    if cur.right is Some {
                        let r = *cur.right->0;
                        assert(queue@ =~= q.push(l).push(r));
                        assert(queue@.subrange(h + 1, queue@.len() as int) =~= pend.push(l).push(r));
                        lemma_forest_push(pend, l);
                        lemma_forest_push(pend.push(l), r);
                    } else {
                        assert(queue@ =~= q.push(l));
                        assert(queue@.subrange(h + 1, queue@.len() as int) =~= pend.push(l));
                        lemma_forest_push(pend, l);
                    }
                    assert forall|j: int| 0 <= j < h && (#[trigger] queue@[j]).left is Some implies patched(
                        scene,
                        queue@,
                        j,
                    ) by {
                        assert(patched(&sb, q, j));
                        assert(queue@[j].hittable.scene_index as int != own);
                    }
                    assert(patched(scene, queue@, h));
                    assert forall|j: int| 0 <= j < h && queue@[j].left is Some implies scene.bvh_nodes@[queue@[j].hittable.scene_index as int]
                        == sb.bvh_nodes@[q[j].hittable.scene_index as int] by {
                        assert(queue@[j] == q[j]);
                        assert(!tree_ids(q[h]).contains(q[j].hittable.scene_index as int));
                    }
                    assert forall|j: int, k: int|
                        0 <= j < k < h + 1 && queue@[j].left is Some && queue@[k].left is Some implies (#[trigger] scene.bvh_nodes@[queue@[j].hittable.scene_index as int]).left_hittable
                        < (#[trigger] scene.bvh_nodes@[queue@[k].hittable.scene_index as int]).left_hittable by {
                        assert(patched(&sb, q, j));
                        if k < h {
                            assert(sb.bvh_nodes@[q[j].hittable.scene_index as int].left_hittable
                                < sb.bvh_nodes@[q[k].hittable.scene_index as int].left_hittable);
                        }
                    }
                    lemma_queue_step(q, queue@, h);
                } else {
                    assert(queue@ =~= q);
                    assert(queue@.subrange(h + 1, queue@.len() as int) =~= pend);
                    assert(*scene == sb);
                }
                assert(flat_leaves(flat_bvh_hittables@).add(
                    forest_leaves(queue@.subrange(head as int, queue@.len() as int)),
                ) =~= tree_leaves(*self));
                lemma_forest_size_len(queue@.subrange(head as int, queue@.len() as int));
            }
        }
        proof {
            assert(queue@.subrange(head as int, queue@.len() as int) =~= Seq::<
                SceneBvhConstructionNode,
            >::empty());
            assert(flat_leaves(flat_bvh_hittables@) =~= tree_leaves(*self));
        }
        scene.hittables = flat_bvh_hittables;
        proof {
            assert forall|c: int| 1 <= c < scene.hittables@.len() implies #[trigger] has_parent(
                scene,
                c,
            ) by {
                let p = parent[c];
                assert(scene.hittables@[p] == queue@[p].hittable);
                assert(tree_wf(queue@[p]));
                assert(is_child(scene, p, c));
            }
            assert(boxes_kept(&s0, scene));
            assert forall|p: int|
                0 <= p < scene.hittables@.len() && !is_leaf(scene.hittables@[p]) implies #[trigger] right_of(
                scene,
                p,
            ) == NULL_INDEX || right_of(scene, p) == left_of(scene, p) + 1 by {
                assert(scene.hittables@[p] == queue@[p].hittable);
                assert(tree_wf(queue@[p]));
                assert(patched(scene, queue@, p));
            }
            assert forall|p: int, c: int|
                0 <= p < c < scene.hittables@.len() && !is_leaf(scene.hittables@[p]) && !is_leaf(
                    scene.hittables@[c],
                ) implies #[trigger] left_of(scene, p) < #[trigger] left_of(scene, c) by {
                assert(scene.hittables@[p] == queue@[p].hittable);
                assert(scene.hittables@[c] == queue@[c].hittable);
                assert(tree_wf(queue@[p]) && tree_wf(queue@[c]));
                assert(scene.bvh_nodes@[queue@[p].hittable.scene_index as int].left_hittable
                    < scene.bvh_nodes@[queue@[c].hittable.scene_index as int].left_hittable);
            }
            assert forall|p: int| 0 <= p < scene.hittables@.len() implies if is_leaf(
                #[trigger] scene.hittables@[p],
            ) {
                leaf_valid(scene, scene.hittables@[p])
            } else {
                node_children_ok(scene, p)
            } by {
                let n = queue@[p];
                assert(scene.hittables@[p] == n.hittable);
                assert(tree_wf(n) && tree_valid(&s0, n) && tree_boxes(&s0, n));
                if is_leaf(n.hittable) {
                    lemma_box_kept(&s0, scene, n.hittable);
                } else {
                    assert(patched(scene, queue@, p));
                    let l = *n.left->0;
                    lemma_tree_valid_hittable(&s0, l);
                    lemma_box_kept(&s0, scene, l.hittable);
                    if n.right is Some {
                        let r = *n.right->0;
                        lemma_tree_valid_hittable(&s0, r);
                        lemma_box_kept(&s0, scene, r.hittable);
                    }
                }
            }
        }
    }
}

} // verus!
