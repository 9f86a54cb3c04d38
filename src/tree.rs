//! The category tree: nodes held in one list, each parent addressed by its
//! index, which is always smaller than the child's. Parents therefore come
//! before children, and the parent-of relation cannot cycle.

use vstd::prelude::*;
use crate::model::Category;

verus! {

/// A category of the rebuilt tree. `parent_category` and `product_type` are
/// indices into the node list and into the product-type registry.
pub struct FinalCategory {
    pub category: Category,
    pub parent_category: Option<usize>,
    pub saleor_id: Option<String>,
    pub image: Option<String>,
    pub product_type: Option<usize>,
}

impl FinalCategory {
    /// A node for a category row, with nothing resolved yet.
    pub fn new(category: Category) -> (r: FinalCategory)
        ensures
            r.category == category,
            r.parent_category is None,
            r.saleor_id is None,
            r.image is None,
            r.product_type is None,
    {
        FinalCategory {
            category,
            parent_category: None,
            saleor_id: None,
            image: None,
            product_type: None,
        }
    }
}

/// The parent of node `i`, when it has one.
pub open spec fn parent_of(nodes: Seq<FinalCategory>, i: int) -> Option<usize> {
    nodes[i].parent_category
}

/// The node list is a forest laid out parents first: every parent index
/// points to an earlier node, whose id is the one the child names.
pub open spec fn forest(nodes: Seq<FinalCategory>) -> bool {
    forall|i: int|
        0 <= i < nodes.len() && (#[trigger] parent_of(nodes, i)) is Some ==> {
            &&& parent_of(nodes, i)->0 < i
            &&& nodes[i].category.parent_id == Some(nodes[parent_of(nodes, i)->0 as int].category.id)
        }
}

/// The number of parent hops from node `i` up to its root.
pub open spec fn depth(nodes: Seq<FinalCategory>, i: int) -> nat
    decreases i,
{
    if 0 <= i < nodes.len() && parent_of(nodes, i) is Some && 0 <= parent_of(nodes, i)->0 < i {
        depth(nodes, parent_of(nodes, i)->0 as int) + 1
    } else {
        0
    }
}

/// Whether node `a` is reached from node `i` by one or more parent hops.
pub open spec fn is_ancestor(nodes: Seq<FinalCategory>, a: int, i: int) -> bool
    decreases i,
{
    if 0 <= i < nodes.len() && parent_of(nodes, i) is Some && 0 <= parent_of(nodes, i)->0 < i {
        let p = parent_of(nodes, i)->0 as int;
        p == a || is_ancestor(nodes, a, p)
    } else {
        false
    }
}

/// The nodes are in ascending order of depth.
pub open spec fn depth_sorted(nodes: Seq<FinalCategory>) -> bool {
    forall|i: int, j: int| 0 <= i < j < nodes.len() ==> depth(nodes, i) <= depth(nodes, j)
}

proof fn lemma_ancestor_is_earlier(nodes: Seq<FinalCategory>, a: int, i: int)
    requires
        is_ancestor(nodes, a, i),
    ensures
        a < i,
    decreases i,
{
    let p = parent_of(nodes, i)->0 as int;
    if p != a {
        lemma_ancestor_is_earlier(nodes, a, p);
    }
}

/// No node of a forest is its own ancestor.
pub proof fn lemma_no_node_is_own_ancestor(nodes: Seq<FinalCategory>, i: int)
    requires
        forest(nodes),
        0 <= i < nodes.len(),
    ensures
        !is_ancestor(nodes, i, i),
{
    if is_ancestor(nodes, i, i) {
        lemma_ancestor_is_earlier(nodes, i, i);
    }
}

/// In a forest a node's depth is its parent's depth plus one, and a root has
/// depth zero.
pub proof fn lemma_depth_follows_parent(nodes: Seq<FinalCategory>, i: int)
    requires
        forest(nodes),
        0 <= i < nodes.len(),
    ensures
        parent_of(nodes, i) is Some ==> depth(nodes, i) == depth(
            nodes,
            parent_of(nodes, i)->0 as int,
        ) + 1,
        parent_of(nodes, i) is None ==> depth(nodes, i) == 0,
{
}

/// Any listing of a forest's nodes in ascending depth order puts every
/// parent before its children: `order` lists node indices, each once, with
/// depths not decreasing.
pub proof fn lemma_depth_order_puts_parents_first(
    nodes: Seq<FinalCategory>,
    order: Seq<int>,
    x: int,
    y: int,
)
    requires
        forest(nodes),
        forall|k: int| 0 <= k < order.len() ==> 0 <= #[trigger] order[k] < nodes.len(),
        forall|k: int, l: int|
            0 <= k < l < order.len() ==> depth(nodes, #[trigger] order[k]) <= depth(
                nodes,
                #[trigger] order[l],
            ),
        0 <= x < order.len(),
        0 <= y < order.len(),
        parent_of(nodes, order[y]) is Some,
        parent_of(nodes, order[y])->0 == order[x],
    ensures
        x < y,
{
    lemma_depth_follows_parent(nodes, order[y]);
    assert(parent_of(nodes, order[y])->0 < order[y]);
    if y < x {
        assert(depth(nodes, order[y]) <= depth(nodes, order[x]));
    }
}

proof fn lemma_depth_push(nodes: Seq<FinalCategory>, x: FinalCategory, i: int)
    requires
        0 <= i < nodes.len(),
    ensures
        depth(nodes.push(x), i) == depth(nodes, i),
    decreases i,
{
    assert(nodes.push(x)[i] == nodes[i]);
    if parent_of(nodes, i) is Some && 0 <= parent_of(nodes, i)->0 < i {
        lemma_depth_push(nodes, x, parent_of(nodes, i)->0 as int);
    }
}

/// Whether some row of `rows` has id `id`.
pub open spec fn id_present(rows: Seq<Category>, id: u32) -> bool {
    exists|s: int| 0 <= s < rows.len() && #[trigger] rows[s].id == id
}

/// A node may be a root only when it names no parent, or names one that is
/// not among `rows`.
pub open spec fn roots_are_orphans(nodes: Seq<FinalCategory>, rows: Seq<Category>) -> bool {
    forall|i: int|
        0 <= i < nodes.len() && (#[trigger] parent_of(nodes, i)) is None ==> match nodes[i].category.parent_id {
            Some(p) => !id_present(rows, p),
            None => true,
        }
}

/// Every node is a copy of one of `rows`.
pub open spec fn drawn_from(nodes: Seq<FinalCategory>, rows: Seq<Category>) -> bool {
    forall|i: int|
        0 <= i < nodes.len() ==> exists|s: int| 0 <= s < rows.len() && #[trigger] rows[s] == (
        #[trigger] nodes[i]).category
}

/// A copy of a category row.
pub fn copy_category(c: &Category) -> (r: Category)
    ensures
        r == *c,
{
    Category {
        id: c.id,
        name: c.name.clone(),
        parent_id: c.parent_id,
        deleted_at: c.deleted_at,
        slug: c.slug.clone(),
        description: c.description.clone(),
        image_id: c.image_id,
    }
}

/// Whether `rows` holds a row of id `id`.
fn find_id(rows: &Vec<Category>, id: u32) -> (r: bool)
    ensures
        r == id_present(rows@, id),
{
    let mut s: usize = 0;
    while s < rows.len()
        invariant
            s <= rows@.len(),
            forall|t: int| 0 <= t < s ==> rows@[t].id != id,
        decreases rows@.len() - s,
    {
        if rows[s].id == id {
            return true;
        }
        s = s + 1;
    }
    false
}

/// Whether some node was made from row `c`.
pub open spec fn placed_row(nodes: Seq<FinalCategory>, c: Category) -> bool {
    exists|i: int| 0 <= i < nodes.len() && (#[trigger] nodes[i]).category == c
}

/// A row that becomes a root: it names no parent, or one not among `rows`.
pub open spec fn root_candidate(rows: Seq<Category>, c: Category) -> bool {
    match c.parent_id {
        Some(p) => !id_present(rows, p),
        None => true,
    }
}

/// Whether some node has id `id`.
pub open spec fn node_with_id(nodes: Seq<FinalCategory>, id: u32) -> bool {
    exists|i: int| 0 <= i < nodes.len() && (#[trigger] nodes[i]).category.id == id
}

/// The rows placed in the tree are closed: every root candidate is placed,
/// and so is every row whose parent is placed. (With acyclic ids, every row
/// is therefore placed.)
pub open spec fn complete(nodes: Seq<FinalCategory>, rows: Seq<Category>) -> bool {
    &&& forall|s: int|
        0 <= s < rows.len() && root_candidate(rows, #[trigger] rows[s]) ==> placed_row(nodes, rows[s])
    &&& forall|s: int|
        0 <= s < rows.len() && (#[trigger] rows[s]).parent_id is Some && node_with_id(
            nodes,
            rows[s].parent_id->0,
        ) ==> placed_row(nodes, rows[s])
}

/// `src` maps each node to the row it was made from: distinct rows, and
/// nodes of equal depth in the rows' order.
pub open spec fn sourced(nodes: Seq<FinalCategory>, rows: Seq<Category>, src: Seq<int>) -> bool {
    &&& src.len() == nodes.len()
    &&& forall|i: int|
        0 <= i < nodes.len() ==> 0 <= #[trigger] src[i] < rows.len() && nodes[i].category
            == rows[src[i]]
    &&& forall|i: int, k: int| 0 <= i < k < nodes.len() ==> #[trigger] src[i] != #[trigger] src[k]
    &&& forall|i: int, k: int|
        0 <= i < k < nodes.len() && depth(nodes, i) == depth(nodes, k) ==> #[trigger] src[i]
            < #[trigger] src[k]
}

/// How many entries are true.
pub open spec fn count_true(b: Seq<bool>) -> nat
    decreases b.len(),
{
    if b.len() == 0 {
        0
    } else {
        count_true(b.drop_last()) + if b.last() {
            1nat
        } else {
            0nat
        }
    }
}

proof fn lemma_count_bounded(b: Seq<bool>)
    ensures
        count_true(b) <= b.len(),
    decreases b.len(),
{
    if b.len() > 0 {
        lemma_count_bounded(b.drop_last());
    }
}

proof fn lemma_count_set(b: Seq<bool>, j: int)
    requires
        0 <= j < b.len(),
        !b[j],
    ensures
        count_true(b.update(j, true)) == count_true(b) + 1,
    decreases b.len(),
{
    if j < b.len() - 1 {
        assert(b.update(j, true).drop_last() =~= b.drop_last().update(j, true));
        lemma_count_set(b.drop_last(), j);
    } else {
        assert(b.update(j, true).drop_last() =~= b.drop_last());
    }
}

/// Lays category rows out as a forest, layer by layer: first every row that
/// names no parent or a parent that is not among the rows (an orphan becomes
/// a root), then, layer after layer, every row whose parent is in the layer
/// just placed, in the rows' order. The result is sorted by depth, keeps the
/// rows' order within a depth, holds each row at most once, and is complete:
/// only rows whose parent chain never reaches a root (a cycle in the source
/// ids) are left out.
pub fn build_tree(rows: &Vec<Category>) -> (r: Vec<FinalCategory>)
    ensures
        forest(r@),
        depth_sorted(r@),
        roots_are_orphans(r@, rows@),
        drawn_from(r@, rows@),
        complete(r@, rows@),
        exists|src: Seq<int>| #[trigger] sourced(r@, rows@, src),
        forall|i: int|
            0 <= i < r@.len() ==> (#[trigger] r@[i]).saleor_id is None && r@[i].image is None
                && r@[i].product_type is None,
{
    let n = rows.len();
    let ghost mut src: Seq<int> = Seq::empty();
    let mut placed: Vec<bool> = Vec::new();
    let mut out: Vec<FinalCategory> = Vec::new();
    let mut j: usize = 0;
    while j < n
        invariant
            n == rows@.len(),
            j <= n,
            placed@.len() == j,
            out@.len() == count_true(placed@),
            forest(out@),
            depth_sorted(out@),
            roots_are_orphans(out@, rows@),
            drawn_from(out@, rows@),
            forall|s: int| 0 <= s < j ==> (#[trigger] placed@[s]) == root_candidate(rows@, rows@[s]),
            src.len() == out@.len(),
            forall|i: int|
                0 <= i < out@.len() ==> 0 <= #[trigger] src[i] < j && out@[i].category == rows@[src[i]]
                    && placed@[src[i]],
            forall|i: int, k: int| 0 <= i < k < out@.len() ==> #[trigger] src[i] < #[trigger] src[k],
            forall|s: int| 0 <= s < j && #[trigger] placed@[s] ==> placed_row(out@, rows@[s]),
            forall|i: int| 0 <= i < out@.len() ==> (#[trigger] out@[i]).parent_category is None,
            forall|i: int|
                0 <= i < out@.len() ==> (#[trigger] out@[i]).saleor_id is None && out@[i].image is None
                    && out@[i].product_type is None,
        decreases n - j,
    {
        let is_root = match rows[j].parent_id {
            Some(p) => !find_id(rows, p),
            None => true,
        };
        let ghost before = out@;
        let ghost placed_before = placed@;
        if is_root {
            let node = FinalCategory::new(copy_category(&rows[j]));
            out.push(node);
            proof {
                src = src.push(j as int);
                assert forall|i: int| 0 <= i < out@.len() implies exists|s: int|
                    0 <= s < rows@.len() && #[trigger] rows@[s] == (#[trigger] out@[i]).category by {
                    if i == before.len() {
                        assert(rows@[j as int] == out@[i].category);
                    } else {
                        assert(out@[i] == before[i]);
                    }
                }
                assert forall|i: int| 0 <= i < out@.len() implies depth(out@, i) == 0 by {
                    assert(parent_of(out@, i) is None);
                }
                assert forall|i: int|
                    0 <= i < out@.len() && (#[trigger] parent_of(out@, i)) is None implies match out@[i].category.parent_id {
                    Some(pp) => !id_present(rows@, pp),
                    None => true,
                } by {
                    if i < before.len() {
                        assert(out@[i] == before[i]);
                        assert(parent_of(before, i) is None);
                    } else {
                        assert(out@[i].category == rows@[j as int]);
                    }
                }
            }
        }
        placed.push(is_root);
        proof {
            assert(placed@.drop_last() =~= placed_before);
            assert forall|i: int| 0 <= i < out@.len() implies 0 <= #[trigger] src[i] < j + 1
                && out@[i].category == rows@[src[i]] && placed@[src[i]] by {
                if i < before.len() {
                    assert(out@[i] == before[i]);
                    assert(placed@[src[i]] == placed_before[src[i]]);
                }
            }
            assert forall|s: int| 0 <= s < j + 1 && #[trigger] placed@[s] implies placed_row(out@, rows@[s]) by {
                if s == j {
                    assert(out@[before.len() as int].category == rows@[s]);
                } else {
                    assert(placed_before[s]);
                    let w = choose|w: int| 0 <= w < before.len() && (#[trigger] before[w]).category == rows@[s];
                    assert(out@[w] == before[w]);
                }
            }
        }
        j = j + 1;
    }
    let mut layer_start: usize = 0;
    let mut layer_end: usize = out.len();
    let mut round: usize = 0;
    proof {
        lemma_count_bounded(placed@);
    }
    while layer_start < layer_end
        invariant
            n == rows@.len(),
            placed@.len() == n,
            out@.len() == count_true(placed@),
            out@.len() <= n,
            round <= layer_start <= layer_end,
            layer_end == out@.len(),
            forest(out@),
            depth_sorted(out@),
            roots_are_orphans(out@, rows@),
            drawn_from(out@, rows@),
            forall|s: int| 0 <= s < n && root_candidate(rows@, #[trigger] rows@[s]) ==> placed@[s],
            forall|s: int| 0 <= s < n && #[trigger] placed@[s] ==> placed_row(out@, rows@[s]),
            src.len() == out@.len(),
            forall|i: int|
                0 <= i < out@.len() ==> 0 <= #[trigger] src[i] < n && out@[i].category == rows@[src[i]]
                    && placed@[src[i]],
            forall|i: int, k: int| 0 <= i < k < out@.len() ==> #[trigger] src[i] != #[trigger] src[k],
            forall|i: int, k: int|
                0 <= i < k < out@.len() && depth(out@, i) == depth(out@, k) ==> #[trigger] src[i]
                    < #[trigger] src[k],
            forall|s: int|
                0 <= s < n && !(#[trigger] placed@[s]) && rows@[s].parent_id is Some ==> forall|i: int|
                    0 <= i < layer_start ==> (#[trigger] out@[i]).category.id != rows@[s].parent_id->0,
            forall|i: int| 0 <= i < out@.len() ==> depth(out@, i) <= round,
            forall|i: int| layer_start <= i < layer_end ==> depth(out@, i) == round,
            forall|i: int|
                0 <= i < out@.len() ==> (#[trigger] out@[i]).saleor_id is None && out@[i].image is None
                    && out@[i].product_type is None,
        decreases n - layer_start,
    {
        let mut j: usize = 0;
        while j < n
            invariant
                n == rows@.len(),
                placed@.len() == n,
                out@.len() == count_true(placed@),
                j <= n,
                round <= layer_start < layer_end <= out@.len(),
                forest(out@),
                depth_sorted(out@),
                roots_are_orphans(out@, rows@),
                drawn_from(out@, rows@),
                forall|s: int| 0 <= s < n && root_candidate(rows@, #[trigger] rows@[s]) ==> placed@[s],
                forall|s: int| 0 <= s < n && #[trigger] placed@[s] ==> placed_row(out@, rows@[s]),
                src.len() == out@.len(),
                forall|i: int|
                    0 <= i < out@.len() ==> 0 <= #[trigger] src[i] < n && out@[i].category
                        == rows@[src[i]] && placed@[src[i]],
                forall|i: int| layer_end <= i < out@.len() ==> #[trigger] src[i] < j,
                forall|i: int, k: int| 0 <= i < k < out@.len() ==> #[trigger] src[i] != #[trigger] src[k],
                forall|i: int, k: int|
                    0 <= i < k < out@.len() && depth(out@, i) == depth(out@, k) ==> #[trigger] src[i]
                        < #[trigger] src[k],
                forall|s: int|
                    0 <= s < n && !(#[trigger] placed@[s]) && rows@[s].parent_id is Some ==> forall|i: int|
                        0 <= i < (if s < j { layer_end as int } else { layer_start as int })
                            ==> (#[trigger] out@[i]).category.id != rows@[s].parent_id->0,
                forall|i: int| 0 <= i < layer_end ==> depth(out@, i) <= round,
                forall|i: int| layer_end <= i < out@.len() ==> depth(out@, i) == round + 1,
                forall|i: int| layer_start <= i < layer_end ==> depth(out@, i) == round,
                forall|i: int|
                    0 <= i < out@.len() ==> (#[trigger] out@[i]).saleor_id is None && out@[i].image
                        is None && out@[i].product_type is None,
            decreases n - j,
        {
            if !placed[j] {
                if let Some(p) = rows[j].parent_id {
                    let mut k: usize = layer_start;
                    let mut found: Option<usize> = None;
                    while k < layer_end && found.is_none()
                        invariant
                            layer_start <= k <= layer_end <= out@.len(),
                            found is None ==> forall|i: int|
                                layer_start <= i < k ==> (#[trigger] out@[i]).category.id != p,
                            found is Some ==> {
                                &&& layer_start <= found->0 < layer_end
                                &&& out@[found->0 as int].category.id == p
                            },
                        decreases layer_end - k + if found is None { 1int } else { 0int },
                    {
                        if out[k].category.id == p {
                            found = Some(k);
                        } else {
                            k = k + 1;
                        }
                    }
                    if let Some(q) = found {
                        let ghost before = out@;
                        let ghost placed_before = placed@;
                        let mut node = FinalCategory::new(copy_category(&rows[j]));
                        node.parent_category = Some(q);
                        out.push(node);
                        placed.set(j, true);
                        proof {
                            let ghost src_before = src;
                            src = src.push(j as int);
                            lemma_count_set(placed_before, j as int);
                            assert forall|i: int| 0 <= i < before.len() implies depth(out@, i)
                                == depth(before, i) by {
                                lemma_depth_push(before, node, i);
                            }
                            assert(depth(out@, before.len() as int) == depth(out@, q as int) + 1);
                            assert(depth(out@, q as int) == depth(before, q as int));
                            assert(depth(out@, before.len() as int) == round + 1);
                            assert forall|a: int, b: int| 0 <= a < b < out@.len() implies depth(out@, a)
                                <= depth(out@, b) by {
                                assert(depth(out@, a) == depth(before, a));
                                if b < before.len() {
                                    assert(depth(out@, b) == depth(before, b));
                                    assert(depth(before, a) <= depth(before, b));
                                } else if a < layer_end {
                                    assert(depth(before, a) <= round);
                                } else {
                                    assert(depth(before, a) == round + 1);
                                }
                            }
                            assert forall|i: int| 0 <= i < layer_end implies depth(out@, i) <= round by {
                                assert(depth(out@, i) == depth(before, i));
                            }
                            assert forall|i: int| layer_end <= i < out@.len() implies depth(out@, i)
                                == round + 1 by {
                                if i < before.len() {
                                    assert(depth(out@, i) == depth(before, i));
                                }
                            }
                            assert forall|i: int| layer_start <= i < layer_end implies depth(out@, i)
                                == round by {
                                assert(depth(out@, i) == depth(before, i));
                            }
                            assert forall|i: int|
                                0 <= i < out@.len() && (#[trigger] parent_of(out@, i)) is Some implies {
                                &&& parent_of(out@, i)->0 < i
                                &&& out@[i].category.parent_id == Some(
                                    out@[parent_of(out@, i)->0 as int].category.id,
                                )
                            } by {
                                if i < before.len() {
                                    assert(parent_of(out@, i) == parent_of(before, i));
                                }
                            }
                            assert forall|i: int| 0 <= i < out@.len() implies exists|s: int|
                                0 <= s < rows@.len() && #[trigger] rows@[s] == (
                                #[trigger] out@[i]).category by {
                                if i == before.len() {
                                    assert(rows@[j as int] == out@[i].category);
                                } else {
                                    assert(out@[i] == before[i]);
                                }
                            }
                            assert forall|i: int|
                                0 <= i < out@.len() && (#[trigger] parent_of(out@, i))
                                    is None implies match out@[i].category.parent_id {
                                Some(pp) => !id_present(rows@, pp),
                                None => true,
                            } by {
                                assert(i < before.len());
                                assert(parent_of(out@, i) == parent_of(before, i));
                            }
                            assert forall|s: int| 0 <= s < n && #[trigger] placed@[s] implies placed_row(
                                out@,
                                rows@[s],
                            ) by {
                                if s == j {
                                    assert(out@[before.len() as int].category == rows@[s]);
                                } else {
                                    assert(placed_before[s]);
                                    let w = choose|w: int|
                                        0 <= w < before.len() && (#[trigger] before[w]).category
                                            == rows@[s];
                                    assert(out@[w] == before[w]);
                                }
                            }
                            assert forall|s: int| 0 <= s < n && root_candidate(rows@, #[trigger] rows@[s]) implies placed@[s] by {
                                assert(placed_before[s]);
                            }
                            assert forall|i: int| 0 <= i < out@.len() implies 0 <= #[trigger] src[i] < n
                                && out@[i].category == rows@[src[i]] && placed@[src[i]] by {
                                if i < before.len() {
                                    assert(out@[i] == before[i]);
                                }
                            }
                            assert forall|i: int, k: int| 0 <= i < k < out@.len() implies #[trigger] src[i]
                                != #[trigger] src[k] by {
                                if k == before.len() {
                                    assert(placed_before[src_before[i]]);
                                }
                            }
                            assert forall|i: int, k: int|
                                0 <= i < k < out@.len() && depth(out@, i) == depth(out@, k) implies #[trigger] src[i]
                                    < #[trigger] src[k] by {
                                assert(depth(out@, i) == depth(before, i));
                                if k < before.len() {
                                    assert(depth(out@, k) == depth(before, k));
                                } else if i < layer_end {
                                    assert(depth(before, i) <= round);
                                } else {
                                    assert(src_before[i] < j);
                                }
                            }
                            assert forall|s: int|
                                0 <= s < n && !(#[trigger] placed@[s]) && rows@[s].parent_id is Some implies forall|i: int|
                                    0 <= i < (if s < j + 1 { layer_end as int } else { layer_start as int })
                                        ==> (#[trigger] out@[i]).category.id != rows@[s].parent_id->0 by {
                                assert(s != j);
                                assert(!placed_before[s]);
                                assert forall|i: int|
                                    0 <= i < (if s < j + 1 { layer_end as int } else { layer_start as int })
                                    implies (#[trigger] out@[i]).category.id != rows@[s].parent_id->0 by {
                                    assert(out@[i] == before[i]);
                                }
                            }
                        }
                    } else {
                        proof {
                            assert forall|i: int| 0 <= i < layer_end implies (#[trigger] out@[i]).category.id != p by {
                                if i < layer_start {
                                    assert(!placed@[j as int] && rows@[j as int].parent_id is Some);
                                }
                            }
                        }
                    }
                }
            }
            j = j + 1;
        }
        layer_start = layer_end;
        layer_end = out.len();
        round = round + 1;
        proof {
            lemma_count_bounded(placed@);
        }
    }
    proof {
        assert(sourced(out@, rows@, src));
        assert forall|s: int|
            0 <= s < rows@.len() && (#[trigger] rows@[s]).parent_id is Some && node_with_id(
                out@,
                rows@[s].parent_id->0,
            ) implies placed_row(out@, rows@[s]) by {
            if !placed@[s] {
                let w = choose|w: int| 0 <= w < out@.len() && (#[trigger] out@[w]).category.id == rows@[s].parent_id->0;
                assert(out@[w].category.id != rows@[s].parent_id->0);
            }
        }
    }
    out
}

} // verus!
