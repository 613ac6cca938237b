//! Which nodes of a tree are shown, and where.
use vstd::prelude::*;

use super::{height_of, ranked, rows_below, NodeModel, TreeModel, TreeNodeId};

verus! {

/// Some node with this identifier is an open directory.
pub open spec fn is_open(nodes: Seq<NodeModel>, id: TreeNodeId) -> bool {
    exists|j: int|
        0 <= j < nodes.len() && (#[trigger] nodes[j]).id == id && nodes[j].kind is Directory
            && nodes[j].is_expanded
}

/// Identifiers of nodes differ.
pub open spec fn told_apart(nodes: Seq<NodeModel>) -> bool {
    forall|i: int, j: int|
        0 <= i < j < nodes.len() ==> #[trigger] nodes[i].id != #[trigger] nodes[j].id
}

/// A row is shown before another.
pub open spec fn shown_before(rows: Seq<TreeNodeId>, a: TreeNodeId, b: TreeNodeId) -> bool {
    exists|m: int, n: int| 0 <= m < n < rows.len() && #[trigger] rows[m] == a && #[trigger] rows[n] == b
}

proof fn lemma_join(a: Seq<TreeNodeId>, b: Seq<TreeNodeId>, x: TreeNodeId, y: TreeNodeId)
    ensures
        a.contains(x) && b.contains(y) ==> shown_before(a + b, x, y),
        shown_before(a, x, y) ==> shown_before(a + b, x, y),
        shown_before(b, x, y) ==> shown_before(a + b, x, y),
        (a + b).contains(x) <==> a.contains(x) || b.contains(x),
{
    let c = a + b;
    if a.contains(x) {
        let m = choose|m: int| 0 <= m < a.len() && a[m] == x;
        assert(c[m] == x);
        if b.contains(y) {
            let n = choose|n: int| 0 <= n < b.len() && b[n] == y;
            assert(c[m] == x && c[a.len() + n] == y);
        }
    }
    if b.contains(x) {
        let m = choose|m: int| 0 <= m < b.len() && b[m] == x;
        assert(c[a.len() + m] == x);
    }
    if c.contains(x) {
        let m = choose|m: int| 0 <= m < c.len() && c[m] == x;
        if m < a.len() {
            assert(a[m] == x);
        } else {
            assert(b[m - a.len()] == x);
        }
    }
    if shown_before(a, x, y) {
        let (m, n) = choose|m: int, n: int|
            0 <= m < n < a.len() && #[trigger] a[m] == x && #[trigger] a[n] == y;
        assert(c[m] == x && c[n] == y);
    }
    if shown_before(b, x, y) {
        let (m, n) = choose|m: int, n: int|
            0 <= m < n < b.len() && #[trigger] b[m] == x && #[trigger] b[n] == y;
        assert(c[a.len() + m] == x && c[a.len() + n] == y);
    }
}

/// A row is a child of the node that the rows are below, or stands behind its parent,
/// which is open.
spec fn rightly_shown(
    nodes: Seq<NodeModel>,
    rows: Seq<TreeNodeId>,
    parent: Option<TreeNodeId>,
    i: int,
    x: TreeNodeId,
) -> bool {
    exists|k: int|
        0 <= k < nodes.len() && (#[trigger] nodes[k]).id == x && (nodes[k].parent_id == parent
            && k >= i || nodes[k].parent_id is Some && is_open(nodes, nodes[k].parent_id->0)
            && shown_before(rows, nodes[k].parent_id->0, x))
}

proof fn lemma_only(
    nodes: Seq<NodeModel>,
    height: spec_fn(TreeNodeId) -> nat,
    parent: Option<TreeNodeId>,
    i: int,
    x: TreeNodeId,
)
    requires
        0 <= i,
        rows_below(nodes, height, parent, i).contains(x),
    ensures
        rightly_shown(nodes, rows_below(nodes, height, parent, i), parent, i, x),
    decreases
            if parent is None {
                1int
            } else {
                0int
            },
            match parent {
                Some(p) => height(p),
                None => 0,
            },
            nodes.len() - i,
{
    if i < nodes.len() {
        let rows = rows_below(nodes, height, parent, i);
        let rest = rows_below(nodes, height, parent, i + 1);
        if nodes[i].parent_id != parent {
            lemma_only(nodes, height, parent, i + 1, x);
        } else {
            let id = nodes[i].id;
            let goes = nodes[i].kind is Directory && nodes[i].is_expanded && (
            parent matches Some(p) ==> height(id) < height(p));
            let inner = if goes {
                rows_below(nodes, height, Some(id), 0)
            } else {
                Seq::empty()
            };
            let top = seq![id];
            assert(rows == top + inner + rest);
            assert(top[0] == id);
            lemma_join(top + inner, rest, x, x);
            lemma_join(top, inner, x, x);
            if x == id {
                assert(nodes[i].id == x);
            } else if inner.contains(x) {
                lemma_only(nodes, height, Some(id), 0, x);
                let k = choose|k: int|
                    0 <= k < nodes.len() && (#[trigger] nodes[k]).id == x && (nodes[k].parent_id
                        == Some(id) && k >= 0 || nodes[k].parent_id is Some && is_open(
                        nodes,
                        nodes[k].parent_id->0,
                    ) && shown_before(inner, nodes[k].parent_id->0, x));
                let q = nodes[k].parent_id->0;
                lemma_join(top, inner, id, x);
                lemma_join(top, inner, q, x);
                lemma_join(top + inner, rest, id, x);
                lemma_join(top + inner, rest, q, x);
                assert(nodes[i].id == id);
                assert(is_open(nodes, q));
            } else {
                lemma_only(nodes, height, parent, i + 1, x);
                let k = choose|k: int|
                    0 <= k < nodes.len() && (#[trigger] nodes[k]).id == x && (nodes[k].parent_id
                        == parent && k >= i + 1 || nodes[k].parent_id is Some && is_open(
                        nodes,
                        nodes[k].parent_id->0,
                    ) && shown_before(rest, nodes[k].parent_id->0, x));
                lemma_join(top + inner, rest, nodes[k].parent_id->0, x);
            }
        }
    }
}

/// Children are shown, in the order of the nodes.
proof fn lemma_children(
    nodes: Seq<NodeModel>,
    height: spec_fn(TreeNodeId) -> nat,
    parent: Option<TreeNodeId>,
    i: int,
    k: int,
    l: int,
)
    requires
        0 <= i <= k <= l < nodes.len(),
        nodes[k].parent_id == parent,
        nodes[l].parent_id == parent,
    ensures
        rows_below(nodes, height, parent, i).contains(nodes[k].id),
        k < l ==> shown_before(rows_below(nodes, height, parent, i), nodes[k].id, nodes[l].id),
    decreases nodes.len() - i,
{
    let rows = rows_below(nodes, height, parent, i);
    let rest = rows_below(nodes, height, parent, i + 1);
    if nodes[i].parent_id != parent {
        lemma_children(nodes, height, parent, i + 1, k, l);
    } else {
        let id = nodes[i].id;
        let inner = if nodes[i].kind is Directory && nodes[i].is_expanded && (
        parent matches Some(p) ==> height(id) < height(p)) {
            rows_below(nodes, height, Some(id), 0)
        } else {
            Seq::empty()
        };
        let top = seq![id];
        assert(rows == top + inner + rest);
        assert(top[0] == id);
        lemma_join(top, inner, id, id);
        lemma_join(top + inner, rest, nodes[k].id, nodes[l].id);
        if i < k {
            lemma_children(nodes, height, parent, i + 1, k, l);
        } else if k < l {
            lemma_children(nodes, height, parent, i + 1, l, l);
        }
    }
}

/// The children of an open directory that is shown are shown, in the order of the nodes.
proof fn lemma_opened(
    nodes: Seq<NodeModel>,
    height: spec_fn(TreeNodeId) -> nat,
    parent: Option<TreeNodeId>,
    i: int,
    q: TreeNodeId,
    k: int,
    l: int,
)
    requires
        0 <= i,
        ranked(nodes, height),
        told_apart(nodes),
        rows_below(nodes, height, parent, i).contains(q),
        is_open(nodes, q),
        0 <= k <= l < nodes.len(),
        nodes[k].parent_id == Some(q),
        nodes[l].parent_id == Some(q),
    ensures
        rows_below(nodes, height, parent, i).contains(nodes[k].id),
        k < l ==> shown_before(rows_below(nodes, height, parent, i), nodes[k].id, nodes[l].id),
    decreases
            if parent is None {
                1int
            } else {
                0int
            },
            match parent {
                Some(p) => height(p),
                None => 0,
            },
            nodes.len() - i,
{
    if i < nodes.len() {
        let rows = rows_below(nodes, height, parent, i);
        let rest = rows_below(nodes, height, parent, i + 1);
        if nodes[i].parent_id != parent {
            lemma_opened(nodes, height, parent, i + 1, q, k, l);
        } else {
            let id = nodes[i].id;
            assert(nodes[i].parent_id matches Some(p) ==> height(id) < height(p));
            let inner = if nodes[i].kind is Directory && nodes[i].is_expanded {
                rows_below(nodes, height, Some(id), 0)
            } else {
                Seq::empty()
            };
            let top = seq![id];
            let (a, b) = (nodes[k].id, nodes[l].id);
            assert(rows == top + inner + rest);
            assert(top[0] == id);
            lemma_join(top, inner, q, q);
            lemma_join(top + inner, rest, q, q);
            lemma_join(top, inner, a, b);
            lemma_join(top + inner, rest, a, b);
            if q == id {
                let j = choose|j: int|
                    0 <= j < nodes.len() && (#[trigger] nodes[j]).id == q && nodes[j].kind
                        is Directory && nodes[j].is_expanded;
                assert(j == i) by {
                    if j < i {
                        assert(nodes[j].id != nodes[i].id);
                    } else if i < j {
                        assert(nodes[i].id != nodes[j].id);
                    }
                }
                lemma_children(nodes, height, Some(id), 0, k, l);
            } else if inner.contains(q) {
                lemma_opened(nodes, height, Some(id), 0, q, k, l);
            } else {
                lemma_opened(nodes, height, parent, i + 1, q, k, l);
            }
        }
    }
}

/// A node is shown exactly if it has no parent, or its parent is an open directory that is
/// shown. It stands behind its parent, and siblings stand in the order of the nodes.
pub proof fn rows_show_what_is_open(tree: TreeModel, k: int)
    requires
        tree.wf(),
        told_apart(tree.nodes),
        0 <= k < tree.nodes.len(),
    ensures
        tree.visible_rows.contains(tree.nodes[k].id) <==> (tree.nodes[k].parent_id matches Some(q)
            ==> is_open(tree.nodes, q) && tree.visible_rows.contains(q)),
        tree.visible_rows.contains(tree.nodes[k].id) ==> (tree.nodes[k].parent_id matches Some(q)
            ==> shown_before(tree.visible_rows, q, tree.nodes[k].id)),
        forall|l: int|
            k < l < tree.nodes.len() && #[trigger] tree.nodes[l].parent_id
                == tree.nodes[k].parent_id && tree.visible_rows.contains(tree.nodes[k].id)
                ==> shown_before(tree.visible_rows, tree.nodes[k].id, tree.nodes[l].id),
        forall|x: TreeNodeId| #[trigger]
            tree.visible_rows.contains(x) ==> exists|j: int|
                0 <= j < tree.nodes.len() && (#[trigger] tree.nodes[j]).id == x,
{
    reveal(TreeModel::wf);
    let nodes = tree.nodes;
    let height = height_of(nodes);
    let rows = tree.visible_rows;
    let id = nodes[k].id;
    assert(rows == rows_below(nodes, height, None, 0));
    assert forall|x: TreeNodeId| #[trigger] rows.contains(x) implies exists|j: int|
        0 <= j < nodes.len() && (#[trigger] nodes[j]).id == x by {
        lemma_only(nodes, height, None, 0, x);
    }
    if rows.contains(id) {
        lemma_only(nodes, height, None, 0, id);
        let j = choose|j: int|
            0 <= j < nodes.len() && (#[trigger] nodes[j]).id == id && (nodes[j].parent_id
                == None::<TreeNodeId> && j >= 0 || nodes[j].parent_id is Some && is_open(
                nodes,
                nodes[j].parent_id->0,
            ) && shown_before(rows, nodes[j].parent_id->0, id));
        assert(j == k) by {
            if j < k {
                assert(nodes[j].id != nodes[k].id);
            } else if k < j {
                assert(nodes[k].id != nodes[j].id);
            }
        }
    }
    match nodes[k].parent_id {
        None => {
            lemma_children(nodes, height, None, 0, k, k);
            assert forall|l: int|
                k < l < nodes.len() && #[trigger] nodes[l].parent_id
                    == nodes[k].parent_id implies shown_before(rows, id, nodes[l].id) by {
                lemma_children(nodes, height, None, 0, k, l);
            }
        },
        Some(q) => {
            if is_open(nodes, q) && rows.contains(q) {
                lemma_opened(nodes, height, None, 0, q, k, k);
                assert forall|l: int|
                    k < l < nodes.len() && #[trigger] nodes[l].parent_id
                        == nodes[k].parent_id implies shown_before(rows, id, nodes[l].id) by {
                    lemma_opened(nodes, height, None, 0, q, k, l);
                }
            }
        },
    }
}

} // verus!
