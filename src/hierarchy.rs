use vstd::prelude::*;

use crate::aabb::{contains, lemma_contains_trans, lemma_union_contains};
use crate::construction_node::{flat_wf, has_parent, is_child, node_children_ok};
use crate::primitives::NULL_INDEX;
use crate::scene::{hittable_box, is_leaf, LinearSceneBvh};

verus! {

/// Hittable `d` is reached from hittable `a` by following `k` child links.
pub open spec fn descends(s: &LinearSceneBvh, a: int, d: int, k: nat) -> bool
    decreases k,
{
    if k == 0 {
        a == d
    } else {
        let n = s.bvh_nodes@[s.hittables@[a].scene_index as int];
        &&& 0 <= a < s.hittables@.len()
        &&& !is_leaf(s.hittables@[a])
        &&& {
            ||| descends(s, n.left_hittable as int, d, (k - 1) as nat)
            ||| n.right_hittable != NULL_INDEX && descends(s, n.right_hittable as int, d, (k - 1) as nat)
        }
    }
}

/// In a flattened hierarchy every child link points forward: the children of
/// the node entry at position `p` are `NULL_INDEX` or positions after `p`.
pub proof fn lemma_children_forward(s: &LinearSceneBvh, p: int)
    requires
        flat_wf(s),
        0 <= p < s.hittables@.len(),
        !is_leaf(s.hittables@[p]),
    ensures
        ({
            let n = s.bvh_nodes@[s.hittables@[p].scene_index as int];
            &&& n.left_hittable == NULL_INDEX || p < n.left_hittable < s.hittables@.len()
            &&& n.right_hittable == NULL_INDEX || p < n.right_hittable < s.hittables@.len()
        }),
{
    assert(is_leaf(s.hittables@[p]) || node_children_ok(s, p));
}

/// In a flattened hierarchy the box of every descendant of a hittable lies
/// within that hittable's box, so every leaf lies within the box of each of
/// its ancestors.
pub proof fn lemma_ancestor_contains(s: &LinearSceneBvh, a: int, d: int, k: nat)
    requires
        flat_wf(s),
        0 <= a < s.hittables@.len(),
        descends(s, a, d, k),
    ensures
        contains(hittable_box(s, s.hittables@[a]), hittable_box(s, s.hittables@[d])),
    decreases k,
{
    if k > 0 {
        assert(node_children_ok(s, a));
        let n = s.bvh_nodes@[s.hittables@[a].scene_index as int];
        let lb = hittable_box(s, s.hittables@[n.left_hittable as int]);
        if n.right_hittable != NULL_INDEX {
            let rb = hittable_box(s, s.hittables@[n.right_hittable as int]);
            lemma_union_contains(lb, rb);
        }
        if descends(s, n.left_hittable as int, d, (k - 1) as nat) {
            lemma_ancestor_contains(s, n.left_hittable as int, d, (k - 1) as nat);
            lemma_contains_trans(
                hittable_box(s, s.hittables@[a]),
                lb,
                hittable_box(s, s.hittables@[d]),
            );
        } else {
            let rb = hittable_box(s, s.hittables@[n.right_hittable as int]);
            lemma_ancestor_contains(s, n.right_hittable as int, d, (k - 1) as nat);
            lemma_contains_trans(
                hittable_box(s, s.hittables@[a]),
                rb,
                hittable_box(s, s.hittables@[d]),
            );
        }
    }
}

proof fn lemma_descends_extend(s: &LinearSceneBvh, a: int, p: int, d: int, k: nat)
    requires
        flat_wf(s),
        0 <= d < s.hittables@.len(),
        descends(s, a, p, k),
        0 <= p < s.hittables@.len(),
        is_child(s, p, d),
    ensures
        descends(s, a, d, k + 1),
    decreases k,
{
    if k > 0 {
        let n = s.bvh_nodes@[s.hittables@[a].scene_index as int];
        if descends(s, n.left_hittable as int, p, (k - 1) as nat) {
            assert(node_children_ok(s, a));
            lemma_descends_extend(s, n.left_hittable as int, p, d, (k - 1) as nat);
        } else {
            assert(node_children_ok(s, a));
            lemma_descends_extend(s, n.right_hittable as int, p, d, (k - 1) as nat);
        }
    } else {
        assert(descends(s, d, d, 0));
    }
}

/// In a flattened hierarchy every hittable is reached from the root.
pub proof fn lemma_reached_from_root(s: &LinearSceneBvh, d: int)
    requires
        flat_wf(s),
        0 <= d < s.hittables@.len(),
    ensures
        exists|k: nat| descends(s, 0, d, k),
    decreases d,
{
    if d == 0 {
        assert(descends(s, 0, 0, 0));
    } else {
        assert(has_parent(s, d));
        let p = choose|p: int| 0 <= p < d && #[trigger] is_child(s, p, d);
        lemma_reached_from_root(s, p);
        let k = choose|k: nat| descends(s, 0, p, k);
        lemma_descends_extend(s, 0, p, d, k);
    }
}

/// In a flattened hierarchy the root's box encloses the box of every hittable.
pub proof fn lemma_root_contains(s: &LinearSceneBvh, d: int)
    requires
        flat_wf(s),
        0 <= d < s.hittables@.len(),
    ensures
        contains(hittable_box(s, s.hittables@[0]), hittable_box(s, s.hittables@[d])),
{
    lemma_reached_from_root(s, d);
    let k = choose|k: nat| descends(s, 0, d, k);
    lemma_ancestor_contains(s, 0, d, k);
}

} // verus!
