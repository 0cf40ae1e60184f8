//! The fixed-grid layout pass for the diagram-model renderer: `x` is the
//! node's depth times a fixed column width, `y` a per-subtree cursor that
//! advances by a fixed row height after each child. Ids are assigned from 2
//! upward in depth-first pre-order (0 and 1 are the diagram format's
//! reserved canvas cells).

use crate::{forest_size, forest_view, lemma_forest_view_index, tree_size, NodeType, Tree, TreeNode};
use vstd::prelude::*;

verus! {

broadcast use {vstd::std_specs::vec::axiom_vec_index_decreases, lemma_forest_view_index};

/// The data the diagram-model renderer reads of one node.
pub struct CellInfo {
    pub name: String,
    pub node_type: NodeType,
}

/// Stores the computed position for each node by id: entry `k` of each
/// vector belongs to the node with id `k + 2`.
pub struct NodeLayout {
    pub positions: Vec<(i32, i32)>,
    pub id_to_node: Vec<CellInfo>,
    pub next_id: u32,
}

/// Mathematical model of one grid cell.
pub struct GridCell {
    pub name: Seq<char>,
    pub kind: NodeType,
    pub x: int,
    pub y: int,
}

/// The two vectors describe the same ids, and `next_id` is the id the next
/// node will receive.
pub open spec fn node_layout_wf(l: NodeLayout) -> bool {
    &&& l.positions.len() == l.id_to_node.len()
    &&& l.next_id as int == l.positions.len() + 2
}

/// The cells recorded so far, in id order: cell `k` belongs to id `k + 2`.
pub open spec fn cells_of(l: NodeLayout) -> Seq<GridCell> {
    Seq::new(
        l.positions@.len(),
        |k: int|
            GridCell {
                name: l.id_to_node@[k].name@,
                kind: l.id_to_node@[k].node_type,
                x: l.positions@[k].0 as int,
                y: l.positions@[k].1 as int,
            },
    )
}

/// The edge list as mathematical pairs.
pub open spec fn edges_view(es: Seq<(u32, u32)>) -> Seq<(int, int)> {
    Seq::new(es.len(), |k: int| (es[k].0 as int, es[k].1 as int))
}

impl NodeLayout {
    /// An empty layout; the first node will receive id 2.
    pub fn new() -> (r: Self)
        ensures
            node_layout_wf(r),
            cells_of(r) == Seq::<GridCell>::empty(),
            r.next_id == 2,
    {
        let r = NodeLayout { positions: Vec::new(), id_to_node: Vec::new(), next_id: 2 };
        proof {
            assert(cells_of(r) =~= Seq::<GridCell>::empty());
        }
        r
    }
}

/// The cells of the subtree `t` in pre-order when `t`'s own cell stands at
/// depth `depth` and row cursor `y`: `x` is `depth * 240`, children start at
/// the parent's `y` and advance by 90 per child.
pub open spec fn grid_cells(t: Tree, depth: int, y: int) -> Seq<GridCell>
    decreases t,
{
    seq![GridCell { name: t.name, kind: t.kind, x: depth * 240, y: y }] + grid_cells_forest(
        t.children,
        depth + 1,
        y,
    )
}

/// The cells of a sequence of sibling subtrees: each sibling starts 90 rows
/// below the previous one.
pub open spec fn grid_cells_forest(ts: Seq<Tree>, depth: int, y: int) -> Seq<GridCell>
    decreases ts,
{
    if ts.len() == 0 {
        Seq::empty()
    } else {
        grid_cells(ts[0], depth, y) + grid_cells_forest(ts.drop_first(), depth, y + 90)
    }
}

/// The (parent, child) edges of the subtree whose root has id `id`, in the
/// order the pass records them: for each child in order, first the edges
/// inside that child's subtree, then the edge to that child.
pub open spec fn grid_edges(t: Tree, id: int) -> Seq<(int, int)>
    decreases t,
{
    grid_edges_forest(t.children, id, id + 1)
}

/// The edges contributed by a sequence of sibling subtrees whose parent has
/// id `parent` and whose first member receives id `id`.
pub open spec fn grid_edges_forest(ts: Seq<Tree>, parent: int, id: int) -> Seq<(int, int)>
    decreases ts,
{
    if ts.len() == 0 {
        Seq::empty()
    } else {
        grid_edges(ts[0], id) + seq![(parent, id)] + grid_edges_forest(
            ts.drop_first(),
            parent,
            id + tree_size(ts[0]),
        )
    }
}

/// Every value the grid pass computes for `t` stays in range: column
/// offsets and row cursors fit in `i32`, ids fit in `u32`, and each label's
/// cell width fits in `i32`.
pub open spec fn grid_fits(t: Tree, depth: int, y: int, id: int) -> bool
    decreases t,
{
    &&& 0 <= depth
    &&& 0 <= y
    &&& 2 <= id
    &&& depth * 240 <= 0x7fff_ffff
    &&& y + 90 * (t.children.len() as int) <= 0x7fff_ffff
    &&& id + tree_size(t) <= 0xffff_ffff
    &&& t.name.len() * 12 + 32 <= 0x7fff_ffff
    &&& grid_fits_forest(t.children, depth + 1, y, id + 1)
}

/// `grid_fits` over a sequence of sibling subtrees.
pub open spec fn grid_fits_forest(ts: Seq<Tree>, depth: int, y: int, id: int) -> bool
    decreases ts,
{
    if ts.len() == 0 {
        true
    } else {
        grid_fits(ts[0], depth, y, id) && grid_fits_forest(
            ts.drop_first(),
            depth,
            y + 90,
            id + tree_size(ts[0]),
        )
    }
}

/// A tree has at least its root.
pub proof fn lemma_tree_size_pos(t: Tree)
    ensures
        tree_size(t) >= 1,
{
}

/// Recursively assign (x, y) positions for a tree, returning the node id.
/// The node itself takes the next id and the cell `(depth * 240, *y_offset)`;
/// each child is then laid out one column deeper, 90 rows below its previous
/// sibling, and the edge to it is recorded after the child's own edges.
pub fn layout_tree(
    node: &TreeNode,
    depth: i32,
    y_offset: &mut i32,
    layout: &mut NodeLayout,
    parent_id: u32,
    edges: &mut Vec<(u32, u32)>,
) -> (id: u32)
    requires
        node_layout_wf(*old(layout)),
        grid_fits(node@, depth as int, *old(y_offset) as int, old(layout).next_id as int),
    ensures
        node_layout_wf(*final(layout)),
        id == old(layout).next_id,
        final(layout).next_id as int == old(layout).next_id as int + tree_size(node@),
        *final(y_offset) == *old(y_offset),
        cells_of(*final(layout)) == cells_of(*old(layout)) + grid_cells(
            node@,
            depth as int,
            *old(y_offset) as int,
        ),
        edges_view(final(edges)@) == edges_view(old(edges)@) + grid_edges(
            node@,
            old(layout).next_id as int,
        ),
    decreases *node,
{
    let ghost t = node@;
    let local_y = *y_offset;
    let id = layout.next_id;
    proof {
        lemma_tree_size_pos(t);
    }
    layout.next_id = layout.next_id + 1;
    layout.id_to_node.push(CellInfo { name: node.name.clone(), node_type: node.node_type });
    layout.positions.push((depth * 240, local_y));
    let ghost own = GridCell { name: t.name, kind: t.kind, x: depth as int * 240, y: local_y as int };
    let ghost cells_total = cells_of(*old(layout)) + grid_cells(t, depth as int, local_y as int);
    let ghost edges_total = edges_view(old(edges)@) + grid_edges(t, id as int);
    let n = node.children.len();
    proof {
        lemma_forest_view_index(node.children@, 0);
        assert(t.children.len() == n);
        assert(cells_of(*layout) =~= cells_of(*old(layout)) + seq![own]);
        assert(t.children.skip(0) =~= t.children);
        assert(cells_of(*layout) + grid_cells_forest(t.children.skip(0), depth as int + 1, local_y as int)
            =~= cells_total);
        assert(edges_view(edges@) + grid_edges_forest(t.children.skip(0), id as int, layout.next_id as int)
            =~= edges_total);
        assert(forest_size(t.children) == tree_size(t) - 1);
    }
    let mut child_y = local_y;
    let mut k: usize = 0;
    while k < n
        invariant
            k <= n,
            n == node.children.len(),
            t == node@,
            t.children.len() == n,
            node_layout_wf(*layout),
            child_y as int == local_y as int + 90 * (k as int),
            local_y as int + 90 * (n as int) <= 0x7fff_ffff,
            0 <= local_y,
            0 <= (depth as int) + 1,
            layout.next_id as int <= 0xffff_ffff,
            layout.next_id as int == old(layout).next_id as int + tree_size(t) - forest_size(
                t.children.skip(k as int),
            ),
            cells_of(*layout) + grid_cells_forest(
                t.children.skip(k as int),
                depth as int + 1,
                child_y as int,
            ) == cells_total,
            edges_view(edges@) + grid_edges_forest(
                t.children.skip(k as int),
                id as int,
                layout.next_id as int,
            ) == edges_total,
            grid_fits_forest(
                t.children.skip(k as int),
                depth as int + 1,
                child_y as int,
                layout.next_id as int,
            ),
            depth as int * 240 <= 0x7fff_ffff,
            0 <= depth,
        decreases n - k,
    {
        proof {
            lemma_forest_view_index(node.children@, k as int);
            assert(t.children.skip(k as int)[0] == t.children[k as int]);
            assert(t.children.skip(k as int).drop_first() =~= t.children.skip(k as int + 1));
            lemma_tree_size_pos(t.children[k as int]);
        }
        let ghost pre_next = layout.next_id as int;
        let ghost pre_edges = edges_view(edges@);
        proof {
            assert(grid_edges_forest(t.children.skip(k as int), id as int, pre_next)
                == grid_edges(t.children[k as int], pre_next) + seq![(id as int, pre_next)]
                + grid_edges_forest(
                t.children.skip(k as int + 1),
                id as int,
                pre_next + tree_size(t.children[k as int]),
            ));
        }
        let child_id = layout_tree(&node.children[k], depth + 1, &mut child_y, layout, id, edges);
        edges.push((id, child_id));
        proof {
            assert(edges_view(edges@) =~= pre_edges + grid_edges(t.children[k as int], pre_next)
                + seq![(id as int, child_id as int)]);
            assert(edges_view(edges@) + grid_edges_forest(
                t.children.skip(k as int + 1),
                id as int,
                layout.next_id as int,
            ) =~= edges_total);
            assert(cells_of(*layout) + grid_cells_forest(
                t.children.skip(k as int + 1),
                depth as int + 1,
                child_y as int + 90,
            ) =~= cells_total);
            assert(forest_size(t.children.skip(k as int)) == tree_size(t.children[k as int])
                + forest_size(t.children.skip(k as int + 1)));
        }
        child_y = child_y + 90;
        k = k + 1;
    }
    proof {
        assert(t.children.skip(n as int) =~= Seq::<Tree>::empty());
        assert(cells_of(*layout) =~= cells_total);
        assert(edges_view(edges@) =~= edges_total);
    }
    id
}

} // verus!
