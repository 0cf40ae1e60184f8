//! The general laws of the two layout passes and the renderers, stated over
//! the models that the executable functions' contracts pin down.

use crate::drawio_layout::{grid_edges, grid_edges_forest};
use crate::svg_map::{
    bbox_forest, bbox_node, canvas_fits, forest_canvas_fits, group_markup, layout_forest_spec,
    layout_spec, lemma_layout_forest_spec_basic, lemma_layout_spec_basic, node_id_seq,
    subtree_height, svg_children, svg_fragment, width_of, LayoutModel, LayoutParams, params_ok,
};
use crate::{forest_size, tree_size, Tree};
use vstd::prelude::*;

verus! {

/// Law: two layout passes over equal trees with equal parameters and equal
/// starting corners assign equal geometry, and the two renderers emit equal
/// markup — the whole pipeline is a function of its input alone.
pub proof fn lemma_determinism(t1: Tree, t2: Tree, x: int, y: int, p: LayoutParams)
    requires
        t1 == t2,
    ensures
        layout_spec(t1, x, y, p) == layout_spec(t2, x, y, p),
        crate::svg_map::svg_map_spec(t1) == crate::svg_map::svg_map_spec(t2),
        crate::drawio_xml::mx_model_spec(t1) == crate::drawio_xml::mx_model_spec(t2),
{
}

/// Law: a label one character longer never gets a narrower box.
pub proof fn lemma_width_monotone(len: int, p: LayoutParams)
    requires
        0 <= p.char_width,
        0 <= len,
    ensures
        width_of(len + 1, p) >= width_of(len, p),
{
    assert((len + 1) * p.char_width >= len * p.char_width) by (nonlinear_arith)
        requires
            0 <= p.char_width,
    ;
}

/// Law (no overlap of sibling boxes): in a space-packing layout of siblings
/// stacked from `y`, the drawn boxes of two distinct siblings — each of the
/// fixed minimum height — occupy disjoint vertical intervals: the earlier
/// box ends at or above where the later box begins.
pub proof fn lemma_sibling_boxes_disjoint(
    ts: Seq<Tree>,
    x: int,
    y: int,
    p: LayoutParams,
    i: int,
    j: int,
)
    requires
        params_ok(p),
        0 <= i < j < ts.len(),
    ensures
        layout_forest_spec(ts, x, y, p)[i].y + p.min_height <= layout_forest_spec(ts, x, y, p)[j].y,
    decreases ts.len(),
{
    let kids = layout_forest_spec(ts, x, y, p);
    let first = layout_spec(ts[0], x, y, p);
    let yy = y + first.height + p.v_spacing;
    let rest = layout_forest_spec(ts.drop_first(), x, yy, p);
    lemma_layout_forest_spec_basic(ts.drop_first(), x, yy, p);
    lemma_layout_spec_basic(ts[0], x, y, p);
    if i == 0 {
        let sub = subtree_height(first.children, p.v_spacing);
        assert((sub - p.min_height) / 2 <= sub - p.min_height || sub - p.min_height < 0);
        assert(first.y + p.min_height <= yy);
        assert(kids[j] == rest[j - 1]);
        assert(rest[j - 1].y >= yy);
    } else {
        lemma_sibling_boxes_disjoint(ts.drop_first(), x, yy, p, i - 1, j - 1);
        assert(kids[i] == rest[i - 1]);
        assert(kids[j] == rest[j - 1]);
    }
}

/// The downward shift that vertical centering gives a laid-out node, read
/// off its model.
pub open spec fn centering_shift(m: LayoutModel, p: LayoutParams) -> int {
    let sub = subtree_height(m.children, p.v_spacing);
    if sub > p.min_height {
        (sub - p.min_height) / 2
    } else {
        0
    }
}

/// Law (no overlap of sibling intervals): the full vertical intervals
/// `[y, y + height)` of two distinct siblings are disjoint, provided no
/// earlier sibling is shifted down by more than one `v_spacing` — the one
/// family of inputs on which the literal claim fails, since a heavily
/// centered subtree's interval can reach into the next slot.
pub proof fn lemma_sibling_intervals_disjoint(
    ts: Seq<Tree>,
    x: int,
    y: int,
    p: LayoutParams,
    i: int,
    j: int,
)
    requires
        params_ok(p),
        0 <= i < j < ts.len(),
        forall|k: int|
            0 <= k < ts.len() ==> centering_shift(
                #[trigger] layout_forest_spec(ts, x, y, p)[k],
                p,
            ) <= p.v_spacing,
    ensures
        layout_forest_spec(ts, x, y, p)[i].y + layout_forest_spec(ts, x, y, p)[i].height
            <= layout_forest_spec(ts, x, y, p)[j].y,
    decreases ts.len(),
{
    let kids = layout_forest_spec(ts, x, y, p);
    let first = layout_spec(ts[0], x, y, p);
    let yy = y + first.height + p.v_spacing;
    let rest = layout_forest_spec(ts.drop_first(), x, yy, p);
    lemma_layout_forest_spec_basic(ts.drop_first(), x, yy, p);
    lemma_layout_spec_basic(ts[0], x, y, p);
    if i == 0 {
        assert(kids[0] == first);
        assert(centering_shift(first, p) <= p.v_spacing);
        assert(first.y + first.height <= yy);
        assert(kids[j] == rest[j - 1]);
        assert(rest[j - 1].y >= yy);
    } else {
        assert forall|k: int| 0 <= k < ts.drop_first().len() implies centering_shift(
            #[trigger] layout_forest_spec(ts.drop_first(), x, yy, p)[k],
            p,
        ) <= p.v_spacing by {
            assert(kids[k + 1] == rest[k]);
            assert(centering_shift(kids[k + 1], p) <= p.v_spacing);
        }
        lemma_sibling_intervals_disjoint(ts.drop_first(), x, yy, p, i - 1, j - 1);
        assert(kids[i] == rest[i - 1]);
        assert(kids[j] == rest[j - 1]);
    }
}

/// Every box of the model lies within `[0, mx] x [0, my]`, the box's own
/// height being the fixed 32 the accumulator uses.
pub open spec fn boxes_within(m: LayoutModel, mx: int, my: int) -> bool
    decreases m,
{
    &&& 0 <= m.x
    &&& 0 <= m.y
    &&& m.x + m.width <= mx
    &&& m.y + 32 <= my
    &&& forest_boxes_within(m.children, mx, my)
}

/// `boxes_within` over a sequence of sibling models.
pub open spec fn forest_boxes_within(ms: Seq<LayoutModel>, mx: int, my: int) -> bool
    decreases ms,
{
    if ms.len() == 0 {
        true
    } else {
        boxes_within(ms[0], mx, my) && forest_boxes_within(ms.drop_first(), mx, my)
    }
}

/// `boxes_within` only relaxes as the canvas grows.
pub proof fn lemma_boxes_within_mono(m: LayoutModel, mx: int, my: int, mx2: int, my2: int)
    requires
        boxes_within(m, mx, my),
        mx <= mx2,
        my <= my2,
    ensures
        boxes_within(m, mx2, my2),
    decreases m,
{
    lemma_forest_boxes_within_mono(m.children, mx, my, mx2, my2);
}

/// `lemma_boxes_within_mono` over a forest.
pub proof fn lemma_forest_boxes_within_mono(
    ms: Seq<LayoutModel>,
    mx: int,
    my: int,
    mx2: int,
    my2: int,
)
    requires
        forest_boxes_within(ms, mx, my),
        mx <= mx2,
        my <= my2,
    ensures
        forest_boxes_within(ms, mx2, my2),
    decreases ms,
{
    if ms.len() > 0 {
        lemma_boxes_within_mono(ms[0], mx, my, mx2, my2);
        lemma_forest_boxes_within_mono(ms.drop_first(), mx, my, mx2, my2);
    }
}

/// Law (bounding-box containment): every box of a layout at nonnegative
/// coordinates lies within `[0, maxX] x [0, maxY]` as the accumulator
/// computes them, whatever the accumulator's starting maxima.
pub proof fn lemma_bbox_contains(m: LayoutModel, acc: (int, int))
    requires
        canvas_fits(m),
    ensures
        boxes_within(m, bbox_node(m, acc).0, bbox_node(m, acc).1),
    decreases m,
{
    let right = m.x + m.width;
    let bottom = m.y + 32;
    let a = (
        if right > acc.0 {
            right
        } else {
            acc.0
        },
        if bottom > acc.1 {
            bottom
        } else {
            acc.1
        },
    );
    crate::svg_map::lemma_bbox_forest_mono(m.children, a);
    lemma_bbox_forest_contains(m.children, a);
}

/// `lemma_bbox_contains` over a forest.
pub proof fn lemma_bbox_forest_contains(ms: Seq<LayoutModel>, acc: (int, int))
    requires
        forest_canvas_fits(ms),
    ensures
        forest_boxes_within(ms, bbox_forest(ms, acc).0, bbox_forest(ms, acc).1),
    decreases ms,
{
    if ms.len() > 0 {
        let a1 = bbox_node(ms[0], acc);
        lemma_bbox_contains(ms[0], acc);
        lemma_bbox_forest_contains(ms.drop_first(), a1);
        crate::svg_map::lemma_bbox_forest_mono(ms.drop_first(), a1);
        lemma_boxes_within_mono(ms[0], a1.0, a1.1, bbox_forest(ms, acc).0, bbox_forest(ms, acc).1);
    }
}

/// Law (centering): a node whose children's combined height exceeds its own
/// minimum height is shifted down by exactly half the excess (integer
/// division); otherwise it keeps its slot's `y`.
pub proof fn lemma_parent_centered(t: Tree, x: int, y: int, p: LayoutParams)
    ensures
        ({
            let m = layout_spec(t, x, y, p);
            let sub = subtree_height(m.children, p.v_spacing);
            m.y == if sub > p.min_height {
                y + (sub - p.min_height) / 2
            } else {
                y
            }
        }),
{
}

/// Law (empty tree): a root with zero children keeps exactly the minimum
/// height, its vector-graphic markup is its own group and nothing else (no
/// connectors), and the diagram model records no edges.
pub proof fn lemma_empty_tree(t: Tree, x: int, y: int, p: LayoutParams, prefix: Seq<char>, id: int)
    requires
        t.children.len() == 0,
        params_ok(p),
    ensures
        layout_spec(t, x, y, p).height == p.min_height,
        layout_spec(t, x, y, p).y == y,
        svg_fragment(layout_spec(t, x, y, p), prefix) == group_markup(
            node_id_seq(prefix, x, y),
            t.name,
            t.kind,
            x,
            y,
            width_of(t.name.len() as int, p),
        ),
        grid_edges(t, id) == Seq::<(int, int)>::empty(),
    decreases t,
{
    let m = layout_spec(t, x, y, p);
    assert(m.children =~= Seq::<LayoutModel>::empty());
    assert(svg_children(m, m.children, node_id_seq(prefix, x, y)) =~= Seq::<char>::empty());
    assert(svg_fragment(m, prefix) =~= group_markup(
        node_id_seq(prefix, x, y),
        t.name,
        t.kind,
        x,
        y,
        width_of(t.name.len() as int, p),
    ));
    assert(grid_edges(t, id) =~= Seq::<(int, int)>::empty());
}

/// Number of edges the grid pass records for a subtree: one per node below
/// the root.
pub proof fn lemma_grid_edges_count(t: Tree, id: int)
    ensures
        grid_edges(t, id).len() == tree_size(t) - 1,
    decreases t,
{
    lemma_grid_edges_forest_count(t.children, id, id + 1);
}

/// Number of edges a forest records: one per node in it.
pub proof fn lemma_grid_edges_forest_count(ts: Seq<Tree>, parent: int, id: int)
    ensures
        grid_edges_forest(ts, parent, id).len() == forest_size(ts),
    decreases ts,
{
    if ts.len() > 0 {
        lemma_grid_edges_count(ts[0], id);
        lemma_grid_edges_forest_count(ts.drop_first(), parent, id + tree_size(ts[0]));
    }
}

/// Node counts grow strictly with the prefix of a forest.
pub proof fn lemma_forest_size_prefix(ts: Seq<Tree>, a: int, b: int)
    requires
        0 <= a < b <= ts.len(),
    ensures
        forest_size(ts.take(a)) < forest_size(ts.take(b)),
    decreases b - a,
{
    if b == a + 1 {
        assert(ts.take(b).drop_last() =~= ts.take(a));
        lemma_forest_size_snoc(ts.take(b));
    } else {
        lemma_forest_size_prefix(ts, a, b - 1);
        lemma_forest_size_prefix(ts, b - 1, b);
    }
}

/// Splitting the last tree off a nonempty forest splits its node count.
pub proof fn lemma_forest_size_snoc(ts: Seq<Tree>)
    requires
        ts.len() > 0,
    ensures
        forest_size(ts) == forest_size(ts.drop_last()) + tree_size(ts.last()),
    decreases ts.len(),
{
    if ts.len() == 1 {
        assert(ts.drop_last() =~= Seq::<Tree>::empty());
        assert(ts.drop_first() =~= Seq::<Tree>::empty());
    } else {
        lemma_forest_size_snoc(ts.drop_first());
        assert(ts.drop_first().drop_last() =~= ts.drop_last().drop_first());
        assert(ts.drop_first().last() == ts.last());
        assert(ts.drop_last()[0] == ts[0]);
    }
}

/// Where the edge to child `k` stands in a forest's edge list: right after
/// all of that child's own subtree edges, at index
/// `forest_size(take(k + 1)) - 1`, pointing at that child's id.
pub proof fn lemma_forest_edge_position(ts: Seq<Tree>, parent: int, id: int, k: int)
    requires
        0 <= k < ts.len(),
    ensures
        grid_edges_forest(ts, parent, id)[forest_size(ts.take(k + 1)) - 1] == (
            parent,
            id + forest_size(ts.take(k)),
        ),
        forest_size(ts.take(k + 1)) - 1 < grid_edges_forest(ts, parent, id).len(),
    decreases ts.len(),
{
    lemma_grid_edges_forest_count(ts, parent, id);
    lemma_grid_edges_count(ts[0], id);
    let e0 = grid_edges(ts[0], id);
    let rest = grid_edges_forest(ts.drop_first(), parent, id + tree_size(ts[0]));
    if k == 0 {
        assert(ts.take(0) =~= Seq::<Tree>::empty());
        assert(ts.take(1).drop_last() =~= Seq::<Tree>::empty());
        assert(ts.take(1)[0] == ts[0]);
        lemma_forest_size_snoc(ts.take(1));
        assert(forest_size(ts.take(1)) == tree_size(ts[0]));
        assert(grid_edges_forest(ts, parent, id)[tree_size(ts[0]) - 1] == (parent, id));
    } else {
        lemma_forest_edge_position(ts.drop_first(), parent, id + tree_size(ts[0]), k - 1);
        assert(ts.drop_first().take(k) =~= ts.take(k + 1).drop_first());
        assert(ts.drop_first().take(k - 1) =~= ts.take(k).drop_first());
        assert(forest_size(ts.take(k + 1)) == tree_size(ts[0]) + forest_size(
            ts.drop_first().take(k),
        ));
        assert(forest_size(ts.take(k)) == tree_size(ts[0]) + forest_size(
            ts.drop_first().take(k - 1),
        ));
        let idx = forest_size(ts.drop_first().take(k)) - 1;
        assert(rest[idx] == (parent, id + tree_size(ts[0]) + forest_size(
            ts.drop_first().take(k - 1),
        )));
        assert(grid_edges_forest(ts, parent, id)[e0.len() + 1 + idx] == rest[idx]);
    }
}

/// Law (edge order): for any node of the diagram-model layout, the edge to
/// an earlier child stands in the edge list before the edge to a later
/// child; both point from the node's id to the respective child's id.
pub proof fn lemma_edge_order(t: Tree, id: int, k: int, l: int)
    requires
        0 <= k < l < t.children.len(),
    ensures
        ({
            let e = grid_edges(t, id);
            let ik = forest_size(t.children.take(k + 1)) - 1;
            let il = forest_size(t.children.take(l + 1)) - 1;
            &&& 0 <= ik < il < e.len()
            &&& e[ik] == (id, id + 1 + forest_size(t.children.take(k)))
            &&& e[il] == (id, id + 1 + forest_size(t.children.take(l)))
        }),
{
    lemma_forest_edge_position(t.children, id, id + 1, k);
    lemma_forest_edge_position(t.children, id, id + 1, l);
    lemma_forest_size_prefix(t.children, k + 1, l + 1);
    if k + 1 >= 1 {
        lemma_forest_size_prefix(t.children, 0, k + 1);
        assert(t.children.take(0) =~= Seq::<Tree>::empty());
    }
    lemma_grid_edges_forest_count(t.children, id, id + 1);
}

} // verus!
