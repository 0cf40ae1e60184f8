//! The space-packing layout engine and the vector-graphic renderer.
//!
//! `layout_tree` assigns every node of a tree a box: depth-based columns
//! left to right, children stacked top to bottom, parents vertically
//! centered against their children's combined span when that span exceeds
//! the parent's own minimum height.

use crate::text::{append_i32_dec, dec_int};
use crate::{forest_view, lemma_forest_view_index, tree_view, NodeType, Tree, TreeNode};
use vstd::prelude::*;

verus! {

broadcast use {vstd::std_specs::vec::axiom_vec_index_decreases, lemma_forest_view_index};

/// The parameters of one space-packing layout pass, as mathematical integers.
pub struct LayoutParams {
    pub h_spacing: int,
    pub v_spacing: int,
    pub char_width: int,
    pub padding: int,
    pub min_width: int,
    pub min_height: int,
}

/// Holds layout information for a node: its box and its laid-out children.
pub struct LayoutNode {
    /// Display label of the underlying tree node
    pub name: String,
    /// Kind of the underlying tree node
    pub node_type: NodeType,
    pub x: i32,
    pub y: i32,
    pub width: i32,
    pub height: i32,
    pub children: Vec<LayoutNode>,
}

/// Mathematical model of a layout node.
pub struct LayoutModel {
    pub name: Seq<char>,
    pub kind: NodeType,
    pub x: int,
    pub y: int,
    pub width: int,
    pub height: int,
    pub children: Seq<LayoutModel>,
}

/// The model of a layout node.
pub open spec fn layout_node_view(n: LayoutNode) -> LayoutModel
    decreases n,
{
    LayoutModel {
        name: n.name@,
        kind: n.node_type,
        x: n.x as int,
        y: n.y as int,
        width: n.width as int,
        height: n.height as int,
        children: layout_forest_view(n.children@),
    }
}

/// The models of a sequence of layout nodes, in order.
pub open spec fn layout_forest_view(ns: Seq<LayoutNode>) -> Seq<LayoutModel>
    decreases ns,
{
    if ns.len() == 0 {
        Seq::empty()
    } else {
        layout_forest_view(ns.drop_last()) + seq![layout_node_view(ns.last())]
    }
}

/// Indexing into the model of a layout forest gives the model of the node there.
pub broadcast proof fn lemma_layout_forest_view_index(ns: Seq<LayoutNode>, i: int)
    ensures
        layout_forest_view(ns).len() == ns.len(),
        0 <= i < ns.len() ==> #[trigger] layout_forest_view(ns)[i] == layout_node_view(ns[i]),
    decreases ns.len(),
{
    if ns.len() > 0 {
        lemma_layout_forest_view_index(ns.drop_last(), i);
    }
}

impl View for LayoutNode {
    type V = LayoutModel;

    open spec fn view(&self) -> LayoutModel {
        layout_node_view(*self)
    }
}

/// Width of a node's box: the label's character count at `char_width` units
/// per character plus padding on both sides, but never less than `min_width`.
pub open spec fn width_of(name_len: int, p: LayoutParams) -> int {
    let w = name_len * p.char_width + 2 * p.padding;
    if w >= p.min_width {
        w
    } else {
        p.min_width
    }
}

/// Combined height of laid-out children, one `v_spacing` after each child.
pub open spec fn stacked_height(kids: Seq<LayoutModel>, v_spacing: int) -> int
    decreases kids.len(),
{
    if kids.len() == 0 {
        0
    } else {
        stacked_height(kids.drop_last(), v_spacing) + kids.last().height + v_spacing
    }
}

/// Combined height of the children with the trailing spacing removed,
/// exactly as the engine computes it.
pub open spec fn subtree_height(kids: Seq<LayoutModel>, v_spacing: int) -> int {
    let s = stacked_height(kids, v_spacing);
    if s > 0 {
        s - v_spacing
    } else {
        s
    }
}

/// The geometry the space-packing layout assigns to the tree `t` when its
/// own box starts at `(x, y)`: the node's width comes from its label, its
/// children stand one column to the right stacked from `y` downward, its
/// height is the larger of `min_height` and the children's combined span,
/// and its own `y` is shifted down by half the excess of that span over
/// `min_height`.
pub open spec fn layout_spec(t: Tree, x: int, y: int, p: LayoutParams) -> LayoutModel
    decreases t,
{
    let width = width_of(t.name.len() as int, p);
    let kids = layout_forest_spec(t.children, x + width + p.h_spacing, y, p);
    let sub = subtree_height(kids, p.v_spacing);
    LayoutModel {
        name: t.name,
        kind: t.kind,
        x: x,
        y: if sub > p.min_height {
            y + (sub - p.min_height) / 2
        } else {
            y
        },
        width: width,
        height: if sub > p.min_height {
            sub
        } else {
            p.min_height
        },
        children: kids,
    }
}

/// The geometry of a sequence of sibling subtrees stacked from `y` downward
/// in the column starting at `x`: each subtree starts where the previous
/// one's span, plus one `v_spacing`, ends.
pub open spec fn layout_forest_spec(ts: Seq<Tree>, x: int, y: int, p: LayoutParams) -> Seq<
    LayoutModel,
>
    decreases ts,
{
    if ts.len() == 0 {
        Seq::empty()
    } else {
        let first = layout_spec(ts[0], x, y, p);
        seq![first] + layout_forest_spec(ts.drop_first(), x, y + first.height + p.v_spacing, p)
    }
}

/// Every coordinate the layout pass computes for this model stays within
/// `i32`: each box, extended by one spacing step, fits, and the label's
/// character count fits.
pub open spec fn model_fits(m: LayoutModel, p: LayoutParams) -> bool
    decreases m,
{
    &&& m.name.len() <= 0x7fff_ffff
    &&& m.x + m.width + p.h_spacing <= 0x7fff_ffff
    &&& m.y + m.height + p.v_spacing <= 0x7fff_ffff
    &&& forest_fits(m.children, p)
}

/// `model_fits` over a sequence of sibling models.
pub open spec fn forest_fits(ms: Seq<LayoutModel>, p: LayoutParams) -> bool
    decreases ms,
{
    if ms.len() == 0 {
        true
    } else {
        model_fits(ms[0], p) && forest_fits(ms.drop_first(), p)
    }
}

/// All layout parameters are nonnegative.
pub open spec fn params_ok(p: LayoutParams) -> bool {
    &&& 0 <= p.h_spacing
    &&& 0 <= p.v_spacing
    &&& 0 <= p.char_width
    &&& 0 <= p.padding
    &&& 0 <= p.min_width
    &&& 0 <= p.min_height
}

/// The parameter record for a call of the layout engine.
pub open spec fn params(
    h_spacing: i32,
    v_spacing: i32,
    char_width: i32,
    padding: i32,
    min_width: i32,
    height: i32,
) -> LayoutParams {
    LayoutParams {
        h_spacing: h_spacing as int,
        v_spacing: v_spacing as int,
        char_width: char_width as int,
        padding: padding as int,
        min_width: min_width as int,
        min_height: height as int,
    }
}

/// Compute width and height for each node and position children to avoid
/// overlap: children go one column right of the parent, stacked downward
/// with `v_spacing` between them; the parent is centered on their span when
/// that span exceeds its own minimum height.
pub fn layout_tree(
    node: &TreeNode,
    x: i32,
    y: i32,
    h_spacing: i32,
    v_spacing: i32,
    char_width: i32,
    padding: i32,
    min_width: i32,
    height: i32,
) -> (r: LayoutNode)
    requires
        0 <= x,
        0 <= y,
        params_ok(params(h_spacing, v_spacing, char_width, padding, min_width, height)),
        model_fits(
            layout_spec(
                node@,
                x as int,
                y as int,
                params(h_spacing, v_spacing, char_width, padding, min_width, height),
            ),
            params(h_spacing, v_spacing, char_width, padding, min_width, height),
        ),
    ensures
        r@ == layout_spec(
            node@,
            x as int,
            y as int,
            params(h_spacing, v_spacing, char_width, padding, min_width, height),
        ),
    decreases *node,
{
    let ghost p = params(h_spacing, v_spacing, char_width, padding, min_width, height);
    let ghost m = layout_spec(node@, x as int, y as int, p);
    let ghost kids = m.children;
    let text_len_usize = node.name.as_str().unicode_len();
    proof {
        assert(m.width == width_of(node.name@.len() as int, p));
        assert(node.name@.len() * char_width + 2 * padding <= m.width);
    }
    let text_len = text_len_usize as i32;
    let width = {
        let w = text_len * char_width + 2 * padding;
        if w >= min_width {
            w
        } else {
            min_width
        }
    };
    let mut curr_y = y;
    let mut children: Vec<LayoutNode> = Vec::new();
    let mut subtree: i32 = 0;
    let ghost cx = x as int + m.width + p.h_spacing;
    let n = node.children.len();
    proof {
        assert(kids == layout_forest_spec(node@.children, cx, y as int, p));
        assert(node@.children.skip(0) =~= node@.children);
        assert(layout_forest_spec(node@.children.skip(0), cx, y as int, p) == kids);
        assert(kids.skip(0) =~= kids);
        assert(kids.take(0) =~= Seq::<LayoutModel>::empty());
        lemma_layout_spec_basic(node@, x as int, y as int, p);
        assert(m.width <= 0x7fff_ffff);
        lemma_forest_view_index(node.children@, 0);
        assert(node@.children.len() == n);
        lemma_layout_forest_spec_basic(node@.children, cx, y as int, p);
        assert(kids.len() == n);
    }
    let mut k: usize = 0;
    while k < n
        invariant
            k <= n,
            n == node.children.len(),
            node@ == tree_view(*node),
            node@.children.len() == n,
            kids.len() == n,
            params_ok(p),
            0 <= x,
            0 <= y,
            p == params(h_spacing, v_spacing, char_width, padding, min_width, height),
            m == layout_spec(node@, x as int, y as int, p),
            kids == m.children,
            model_fits(m, p),
            m.y >= y,
            forest_fits(kids, p),
            cx == x as int + m.width + p.h_spacing,
            x as int + m.width + p.h_spacing <= 0x7fff_ffff,
            width as int == m.width,
            y <= curr_y,
            layout_forest_view(children@) == kids.take(k as int),
            layout_forest_spec(node@.children.skip(k as int), cx, curr_y as int, p) == kids.skip(
                k as int,
            ),
            subtree as int == stacked_height(kids.take(k as int), p.v_spacing),
            0 <= subtree,
        decreases n - k,
    {
        proof {
            assert(node@.children.skip(k as int).len() > 0);
            assert(node@.children.skip(k as int)[0] == node@.children[k as int]);
            assert(kids.skip(k as int)[0] == kids[k as int]);
            assert(kids[k as int] == layout_spec(node@.children[k as int], cx, curr_y as int, p));
            lemma_forest_fits_at(kids, p, k as int);
            lemma_forest_view_index(node.children@, k as int);
            assert(node@.children[k as int] == tree_view(node.children@[k as int]));
        }
        let child = layout_tree(
            &node.children[k],
            x + width + h_spacing,
            curr_y,
            h_spacing,
            v_spacing,
            char_width,
            padding,
            min_width,
            height,
        );
        proof {
            assert(child@ == kids[k as int]);
            assert(model_fits(kids[k as int], p));
            assert(kids[k as int].y + kids[k as int].height + p.v_spacing <= 0x7fff_ffff);
            assert(curr_y as int <= kids[k as int].y) by {
                lemma_layout_spec_basic(node@.children[k as int], cx, curr_y as int, p);
            }
            lemma_layout_forest_spec_basic(node@.children, cx, y as int, p);
            lemma_stacked_height_take(kids, p.v_spacing, k as int + 1);
            assert(stacked_height(kids, p.v_spacing) <= m.height + p.v_spacing);
            assert(kids.take(k as int + 1).drop_last() =~= kids.take(k as int));
            assert(kids.take(k as int + 1).last() == kids[k as int]);
            assert(stacked_height(kids.take(k as int + 1), p.v_spacing) == subtree as int + (
            kids[k as int].height + p.v_spacing));
        }
        curr_y = curr_y + (child.height + v_spacing);
        subtree = subtree + (child.height + v_spacing);
        let ghost prev = children@;
        children.push(child);
        proof {
            assert(children@.drop_last() =~= prev);
            assert(layout_forest_view(children@) == layout_forest_view(children@.drop_last())
                + seq![layout_node_view(children@.last())]);
            assert(layout_forest_view(children@) =~= kids.take(k as int + 1));
            assert(node@.children.skip(k as int).drop_first() =~= node@.children.skip(k as int + 1));
            assert(kids.skip(k as int).drop_first() =~= kids.skip(k as int + 1));
        }
        k = k + 1;
    }
    proof {
        assert(kids.take(n as int) =~= kids);
        assert(node@.children.skip(n as int) =~= Seq::<Tree>::empty());
        assert(kids.skip(n as int) =~= Seq::<LayoutModel>::empty());
        assert(subtree as int == stacked_height(kids, p.v_spacing));
    }
    let sub = if subtree > 0 {
        subtree - v_spacing
    } else {
        subtree
    };
    let node_height = if sub > height {
        sub
    } else {
        height
    };
    let node_y = if sub > height {
        y + (sub - height) / 2
    } else {
        y
    };
    let r = LayoutNode {
        name: node.name.clone(),
        node_type: node.node_type,
        x,
        y: node_y,
        width,
        height: node_height,
        children,
    };
    proof {
        assert(r@ == m);
    }
    r
}

/// Folding step of the bounding-box accumulator on one node: widen the
/// running maxima by the node's own box (its right edge, and its bottom edge
/// at the fixed box height of 32), then by the boxes of its descendants.
pub open spec fn bbox_node(m: LayoutModel, acc: (int, int)) -> (int, int)
    decreases m,
{
    let right = m.x + m.width;
    let bottom = m.y + 32;
    let a = (
        if right > acc.0 {
            right
        } else {
            acc.0
        },
        if bottom > acc.1 {
            bottom
        } else {
            acc.1
        },
    );
    bbox_forest(m.children, a)
}

/// Folding the bounding-box accumulator over a forest, left to right.
pub open spec fn bbox_forest(ms: Seq<LayoutModel>, acc: (int, int)) -> (int, int)
    decreases ms,
{
    if ms.len() == 0 {
        acc
    } else {
        bbox_forest(ms.drop_first(), bbox_node(ms[0], acc))
    }
}

/// Every box of the model lies at nonnegative coordinates and, extended by
/// the renderer's fixed offsets (30 units of connector overhang, the fixed
/// box height of 32), stays within `i32`.
pub open spec fn canvas_fits(m: LayoutModel) -> bool
    decreases m,
{
    &&& 0 <= m.x
    &&& 0 <= m.y
    &&& m.x + m.width + 30 <= 0x7fff_ffff
    &&& m.y + 32 <= 0x7fff_ffff
    &&& 0 <= m.width
    &&& forest_canvas_fits(m.children)
}

/// `canvas_fits` over a sequence of sibling models.
pub open spec fn forest_canvas_fits(ms: Seq<LayoutModel>) -> bool
    decreases ms,
{
    if ms.len() == 0 {
        true
    } else {
        canvas_fits(ms[0]) && forest_canvas_fits(ms.drop_first())
    }
}

/// Each member of a forest that fits the canvas fits it.
pub proof fn lemma_forest_canvas_fits_at(ms: Seq<LayoutModel>, i: int)
    requires
        forest_canvas_fits(ms),
        0 <= i < ms.len(),
    ensures
        canvas_fits(ms[i]),
    decreases ms.len(),
{
    if i > 0 {
        lemma_forest_canvas_fits_at(ms.drop_first(), i - 1);
    }
}

/// A model produced by the layout engine under nonnegative parameters with
/// `h_spacing` at least 30 and `min_height + v_spacing` at least 32 fits the
/// canvas.
pub proof fn lemma_model_canvas_fits(m: LayoutModel, p: LayoutParams)
    requires
        model_fits(m, p),
        model_wf(m, p),
        p.h_spacing >= 30,
        p.min_height + p.v_spacing >= 32,
        params_ok(p),
    ensures
        canvas_fits(m),
    decreases m,
{
    lemma_forest_model_canvas_fits(m.children, p);
}

/// `lemma_model_canvas_fits` over a forest.
pub proof fn lemma_forest_model_canvas_fits(ms: Seq<LayoutModel>, p: LayoutParams)
    requires
        forest_fits(ms, p),
        forest_wf(ms, p),
        p.h_spacing >= 30,
        p.min_height + p.v_spacing >= 32,
        params_ok(p),
    ensures
        forest_canvas_fits(ms),
    decreases ms,
{
    if ms.len() > 0 {
        lemma_model_canvas_fits(ms[0], p);
        lemma_forest_model_canvas_fits(ms.drop_first(), p);
    }
}

/// Structural well-formedness the layout engine guarantees under
/// nonnegative inputs: nonnegative coordinates, and dimensions no smaller
/// than the configured minima.
pub open spec fn model_wf(m: LayoutModel, p: LayoutParams) -> bool
    decreases m,
{
    &&& 0 <= m.x
    &&& 0 <= m.y
    &&& p.min_width <= m.width
    &&& p.min_height <= m.height
    &&& forest_wf(m.children, p)
}

/// `model_wf` over a sequence of sibling models.
pub open spec fn forest_wf(ms: Seq<LayoutModel>, p: LayoutParams) -> bool
    decreases ms,
{
    if ms.len() == 0 {
        true
    } else {
        model_wf(ms[0], p) && forest_wf(ms.drop_first(), p)
    }
}

/// The layout engine, started at nonnegative coordinates with nonnegative
/// parameters, produces a well-formed model.
pub proof fn lemma_layout_spec_wf(t: Tree, x: int, y: int, p: LayoutParams)
    requires
        0 <= x,
        0 <= y,
        params_ok(p),
    ensures
        model_wf(layout_spec(t, x, y, p), p),
    decreases t,
{
    let width = width_of(t.name.len() as int, p);
    lemma_layout_forest_wf(t.children, x + width + p.h_spacing, y, p);
    lemma_layout_forest_spec_basic(t.children, x + width + p.h_spacing, y, p);
    let kids = layout_forest_spec(t.children, x + width + p.h_spacing, y, p);
    lemma_stacked_nonneg(kids, p.v_spacing);
    assert(t.name.len() * p.char_width >= 0) by (nonlinear_arith)
        requires
            t.name.len() >= 0,
            p.char_width >= 0,
    ;
}

/// `lemma_layout_spec_wf` over a forest.
pub proof fn lemma_layout_forest_wf(ts: Seq<Tree>, x: int, y: int, p: LayoutParams)
    requires
        0 <= x,
        0 <= y,
        params_ok(p),
    ensures
        forest_wf(layout_forest_spec(ts, x, y, p), p),
    decreases ts,
{
    if ts.len() > 0 {
        lemma_layout_spec_wf(ts[0], x, y, p);
        let first = layout_spec(ts[0], x, y, p);
        lemma_layout_spec_basic(ts[0], x, y, p);
        let rest = layout_forest_spec(ts.drop_first(), x, y + first.height + p.v_spacing, p);
        lemma_layout_forest_wf(ts.drop_first(), x, y + first.height + p.v_spacing, p);
        assert((seq![first] + rest)[0] == first);
        assert((seq![first] + rest).drop_first() =~= rest);
    }
}

/// Stacked heights of forests with nonnegative box heights are nonnegative.
pub proof fn lemma_stacked_nonneg(ms: Seq<LayoutModel>, vs: int)
    requires
        0 <= vs,
        forall|i: int| 0 <= i < ms.len() ==> #[trigger] ms[i].height >= 0,
    ensures
        0 <= stacked_height(ms, vs),
    decreases ms.len(),
{
    if ms.len() > 0 {
        lemma_stacked_nonneg(ms.drop_last(), vs);
    }
}

/// Walks the layout tree and widens `max` so that on return it covers the
/// right edge and the bottom edge (at the fixed box height of 32) of every
/// box in the tree.
pub fn layout_bbox(layout: &LayoutNode, max: &mut (i32, i32))
    requires
        canvas_fits(layout@),
    ensures
        (final(max).0 as int, final(max).1 as int) == bbox_node(
            layout@,
            (old(max).0 as int, old(max).1 as int),
        ),
    decreases *layout,
{
    let ghost m = layout@;
    let right = layout.x + layout.width;
    let bottom = layout.y + 32;
    if right > max.0 {
        max.0 = right;
    }
    if bottom > max.1 {
        max.1 = bottom;
    }
    let ghost a1 = (max.0 as int, max.1 as int);
    let ghost kids = m.children;
    let n = layout.children.len();
    proof {
        lemma_layout_forest_view_index(layout.children@, 0);
        assert(kids.len() == n);
        assert(kids.skip(0) =~= kids);
        assert(bbox_node(m, (old(max).0 as int, old(max).1 as int)) == bbox_forest(kids, a1));
    }
    let mut k: usize = 0;
    while k < n
        invariant
            k <= n,
            n == layout.children.len(),
            m == layout@,
            kids == m.children,
            kids.len() == n,
            forest_canvas_fits(kids),
            bbox_forest(kids.skip(k as int), (max.0 as int, max.1 as int)) == bbox_node(
                m,
                (old(max).0 as int, old(max).1 as int),
            ),
        decreases n - k,
    {
        proof {
            lemma_layout_forest_view_index(layout.children@, k as int);
            lemma_forest_canvas_fits_at(kids, k as int);
            assert(kids.skip(k as int)[0] == kids[k as int]);
            assert(kids.skip(k as int).drop_first() =~= kids.skip(k as int + 1));
        }
        layout_bbox(&layout.children[k], max);
        k = k + 1;
    }
    proof {
        assert(kids.skip(n as int) =~= Seq::<LayoutModel>::empty());
    }
}

/// The fill (and glow) color for a node of the given kind: neon cyan for
/// directories, neon green for files.
pub open spec fn node_color(kind: NodeType) -> Seq<char> {
    match kind {
        NodeType::Directory => "#00fff7"@,
        NodeType::File => "#39ff14"@,
    }
}

/// The fill (and glow) color for a node of the given kind.
pub fn node_color_str(kind: NodeType) -> (r: &'static str)
    ensures
        r@ == node_color(kind),
{
    match kind {
        NodeType::Directory => "#00fff7",
        NodeType::File => "#39ff14",
    }
}

/// The synthetic identifier of a node: its parent chain's identifier
/// followed by its own coordinates.
pub open spec fn node_id_seq(prefix: Seq<char>, x: int, y: int) -> Seq<char> {
    prefix + "-"@ + dec_int(x) + "-"@ + dec_int(y)
}

/// The group element for one node: a styled rounded box and a text label,
/// with a hover handler, plus a title element for file nodes.
#[verifier::opaque]
pub open spec fn group_markup(
    id: Seq<char>,
    name: Seq<char>,
    kind: NodeType,
    x: int,
    y: int,
    width: int,
) -> Seq<char> {
    "<g id='"@ + id
        + "' onmouseover=\"this.querySelector('rect').style.fill='#333'\" onmouseout=\"this.querySelector('rect').style.fill='"@
        + node_color(kind) + "'\" class='node'><rect x='"@ + dec_int(x) + "' y='"@ + dec_int(y)
        + "' width='"@ + dec_int(width) + "' height='32' rx='12' fill='"@ + node_color(kind)
        + "' filter='url(#glow)' opacity='0.92'/><text x='"@ + dec_int(x + 14) + "' y='"@
        + dec_int(y + 22)
        + "' font-size='16' fill='#000' filter='url(#textglow)' style='font-family:monospace;letter-spacing:0.5px'>"@
        + name + (if kind is File {
        "<title>File: "@ + name + "</title>"@
    } else {
        Seq::<char>::empty()
    }) + "</g>"@
}

/// The cubic connector from the right edge of the parent's box to the left
/// edge of the child's box, control points offset horizontally by 30,
/// vertically centered on each box's half-height.
#[verifier::opaque]
pub open spec fn connector_markup(parent: LayoutModel, child: LayoutModel) -> Seq<char> {
    let x1 = parent.x + parent.width;
    let y1 = parent.y + 16;
    let x2 = child.x;
    let y2 = child.y + 16;
    "<path d='M"@ + dec_int(x1) + ","@ + dec_int(y1) + " C"@ + dec_int(x1 + 30) + ","@ + dec_int(
        y1,
    ) + " "@ + dec_int(x2 - 30) + ","@ + dec_int(y2) + " "@ + dec_int(x2) + ","@ + dec_int(y2)
        + "' stroke='"@ + node_color(parent.kind)
        + "' stroke-width='3.5' fill='none' filter='url(#glow)' opacity='0.88' />"@
}

/// Appends the group element for one node to `svg`.
fn append_group(svg: &mut String, node_id: &str, name: &str, kind: NodeType, x: i32, y: i32, width: i32)
    requires
        0 <= x,
        0 <= y,
        x + 14 <= 0x7fff_ffff,
        y + 22 <= 0x7fff_ffff,
    ensures
        final(svg)@ == old(svg)@ + group_markup(
            node_id@,
            name@,
            kind,
            x as int,
            y as int,
            width as int,
        ),
{
    let color = node_color_str(kind);
    svg.append("<g id='");
    svg.append(node_id);
    svg.append(
        "' onmouseover=\"this.querySelector('rect').style.fill='#333'\" onmouseout=\"this.querySelector('rect').style.fill='",
    );
    svg.append(color);
    svg.append("'\" class='node'><rect x='");
    append_i32_dec(svg, x);
    svg.append("' y='");
    append_i32_dec(svg, y);
    svg.append("' width='");
    append_i32_dec(svg, width);
    svg.append("' height='32' rx='12' fill='");
    svg.append(color);
    svg.append("' filter='url(#glow)' opacity='0.92'/><text x='");
    append_i32_dec(svg, x + 14);
    svg.append("' y='");
    append_i32_dec(svg, y + 22);
    svg.append(
        "' font-size='16' fill='#000' filter='url(#textglow)' style='font-family:monospace;letter-spacing:0.5px'>",
    );
    svg.append(name);
    if let NodeType::File = kind {
        svg.append("<title>File: ");
        svg.append(name);
        svg.append("</title>");
    }
    svg.append("</g>");
    proof {
        reveal(group_markup);
        assert(final(svg)@ =~= old(svg)@ + group_markup(
            node_id@,
            name@,
            kind,
            x as int,
            y as int,
            width as int,
        ));
    }
}

/// Appends the connector between a parent box and a child box to `svg`.
fn append_connector(
    svg: &mut String,
    x: i32,
    y: i32,
    width: i32,
    kind: NodeType,
    cx: i32,
    cy: i32,
    Ghost(parent): Ghost<LayoutModel>,
    Ghost(child): Ghost<LayoutModel>,
)
    requires
        parent.x == x as int,
        parent.y == y as int,
        parent.width == width as int,
        parent.kind == kind,
        child.x == cx as int,
        child.y == cy as int,
        0 <= x,
        0 <= y,
        0 <= cx,
        0 <= cy,
        x + width + 30 <= 0x7fff_ffff,
        0 <= width,
        y + 22 <= 0x7fff_ffff,
        cy + 32 <= 0x7fff_ffff,
    ensures
        final(svg)@ == old(svg)@ + connector_markup(parent, child),
{
    let x1 = x + width;
    let y1 = y + 16;
    let x2 = cx;
    let y2 = cy + 16;
    svg.append("<path d='M");
    append_i32_dec(svg, x1);
    svg.append(",");
    append_i32_dec(svg, y1);
    svg.append(" C");
    append_i32_dec(svg, x1 + 30);
    svg.append(",");
    append_i32_dec(svg, y1);
    svg.append(" ");
    append_i32_dec(svg, x2 - 30);
    svg.append(",");
    append_i32_dec(svg, y2);
    svg.append(" ");
    append_i32_dec(svg, x2);
    svg.append(",");
    append_i32_dec(svg, y2);
    svg.append("' stroke='");
    svg.append(node_color_str(kind));
    svg.append("' stroke-width='3.5' fill='none' filter='url(#glow)' opacity='0.88' />");
    proof {
        reveal(connector_markup);
        assert(final(svg)@ =~= old(svg)@ + connector_markup(parent, child));
    }
}

/// The markup a subtree contributes: the node's own group, then, per child
/// in order, the connector to that child followed by the child's markup.
pub open spec fn svg_fragment(m: LayoutModel, prefix: Seq<char>) -> Seq<char>
    decreases m,
{
    let id = node_id_seq(prefix, m.x, m.y);
    group_markup(id, m.name, m.kind, m.x, m.y, m.width) + svg_children(m, m.children, id)
}

/// The markup of a node's children from `ms`, each preceded by its
/// connector from `parent`, in order.
pub open spec fn svg_children(parent: LayoutModel, ms: Seq<LayoutModel>, id: Seq<char>) -> Seq<
    char,
>
    decreases ms,
{
    if ms.len() == 0 {
        Seq::empty()
    } else {
        connector_markup(parent, ms[0]) + svg_fragment(ms[0], id) + svg_children(
            parent,
            ms.drop_first(),
            id,
        )
    }
}

/// Recursively render SVG for the layout tree: the node's own markup first,
/// then each edge immediately before the corresponding child's markup, in
/// child order.
pub fn svg_for_layout(layout: &LayoutNode, svg: &mut String, id_prefix: &str)
    requires
        canvas_fits(layout@),
    ensures
        final(svg)@ == old(svg)@ + svg_fragment(layout@, id_prefix@),
    decreases *layout,
{
    let ghost m = layout@;
    let ghost prefix = id_prefix@;
    let ghost id = node_id_seq(prefix, m.x, m.y);
    let ghost kids = m.children;
    let mut node_id = String::new();
    node_id.append(id_prefix);
    node_id.append("-");
    append_i32_dec(&mut node_id, layout.x);
    node_id.append("-");
    append_i32_dec(&mut node_id, layout.y);
    proof {
        assert(node_id@ =~= id);
    }
    append_group(
        svg,
        node_id.as_str(),
        layout.name.as_str(),
        layout.node_type,
        layout.x,
        layout.y,
        layout.width,
    );
    let ghost base = old(svg)@ + group_markup(id, m.name, m.kind, m.x, m.y, m.width);
    let ghost mut done = Seq::<char>::empty();
    let n = layout.children.len();
    proof {
        lemma_layout_forest_view_index(layout.children@, 0);
        assert(kids.len() == n);
        assert(kids.skip(0) =~= kids);
        assert(done + svg_children(m, kids.skip(0), id) =~= svg_children(m, kids, id));
        assert(svg@ =~= base + done);
    }
    let mut k: usize = 0;
    while k < n
        invariant
            k <= n,
            n == layout.children.len(),
            m == layout@,
            kids == m.children,
            kids.len() == n,
            forest_canvas_fits(kids),
            canvas_fits(m),
            node_id@ == id,
            svg@ == base + done,
            done + svg_children(m, kids.skip(k as int), id) == svg_children(m, kids, id),
        decreases n - k,
    {
        proof {
            lemma_layout_forest_view_index(layout.children@, k as int);
            lemma_forest_canvas_fits_at(kids, k as int);
            assert(kids.skip(k as int)[0] == kids[k as int]);
            assert(kids.skip(k as int).drop_first() =~= kids.skip(k as int + 1));
        }
        append_connector(
            svg,
            layout.x,
            layout.y,
            layout.width,
            layout.node_type,
            layout.children[k].x,
            layout.children[k].y,
            Ghost(m),
            Ghost(kids[k as int]),
        );
        proof {
            assert(svg@ =~= base + (done + connector_markup(m, kids[k as int])));
        }
        svg_for_layout(&layout.children[k], svg, node_id.as_str());
        proof {
            done = done + connector_markup(m, kids[k as int]) + svg_fragment(kids[k as int], id);
            assert(svg@ =~= base + done);
            assert(done + svg_children(m, kids.skip(k as int + 1), id) =~= svg_children(
                m,
                kids,
                id,
            ));
        }
        k = k + 1;
    }
    proof {
        assert(kids.skip(n as int) =~= Seq::<LayoutModel>::empty());
        assert(done =~= svg_children(m, kids, id));
        assert(svg@ =~= old(svg)@ + svg_fragment(m, prefix));
    }
}

/// The static filter definitions for the glow effects, emitted once at the
/// top of the document.
pub const SVG_DEFS: &'static str =
    "<defs><filter id='glow' x='-50%' y='-50%' width='200%' height='200%'><feGaussianBlur stdDeviation='4' result='blur'/><feMerge><feMergeNode in='blur'/><feMergeNode in='SourceGraphic'/></feMerge></filter><filter id='textglow' x='-50%' y='-50%' width='200%' height='200%'><feGaussianBlur stdDeviation='1' result='blur'/><feMerge><feMergeNode in='blur'/><feMergeNode in='SourceGraphic'/></feMerge></filter></defs>";

/// The static interactive behavior fragment, emitted once at the end of the
/// document.
pub const SVG_SCRIPT: &'static str =
    "<script>document.querySelectorAll('.node').forEach(function(n){n.addEventListener('click',function(){n.classList.toggle('selected');});});</script>";

/// The whole vector-graphic document for a laid-out tree on a canvas of the
/// given size: the canvas header, the static filter definitions, the dark
/// background, the tree's markup under the root identifier prefix, and the
/// static interactive fragment.
pub open spec fn svg_document(m: LayoutModel, w: int, h: int) -> Seq<char> {
    "<svg xmlns='http://www.w3.org/2000/svg' width='"@ + dec_int(w) + "' height='"@ + dec_int(h)
        + "' style='background:#14151a' font-family='monospace'>"@ + SVG_DEFS@
        + "<rect width='100%' height='100%' fill='#14151a'/>"@ + svg_fragment(m, "root"@)
        + SVG_SCRIPT@ + "</svg>"@
}

/// Generates the SVG content with the given layout and dimensions.
pub fn generate_svg_content(layout: &LayoutNode, svg_width: i32, svg_height: i32) -> (r: String)
    requires
        canvas_fits(layout@),
    ensures
        r@ == svg_document(layout@, svg_width as int, svg_height as int),
{
    let mut svg = String::new();
    svg.append("<svg xmlns='http://www.w3.org/2000/svg' width='");
    append_i32_dec(&mut svg, svg_width);
    svg.append("' height='");
    append_i32_dec(&mut svg, svg_height);
    svg.append("' style='background:#14151a' font-family='monospace'>");
    svg.append(SVG_DEFS);
    svg.append("<rect width='100%' height='100%' fill='#14151a'/>");
    svg_for_layout(layout, &mut svg, "root");
    svg.append(SVG_SCRIPT);
    svg.append("</svg>");
    proof {
        assert(svg@ =~= svg_document(layout@, svg_width as int, svg_height as int));
    }
    svg
}

/// The parameters of the vector-graphic layout pass: 40 units of horizontal
/// and 20 of vertical spacing, 10 units per label character with 18 of
/// padding, boxes at least 80 wide and 32 tall.
pub open spec fn svg_map_params() -> LayoutParams {
    LayoutParams {
        h_spacing: 40,
        v_spacing: 20,
        char_width: 10,
        padding: 18,
        min_width: 80,
        min_height: 32,
    }
}

/// The whole vector-graphic document for a tree: the tree is laid out
/// starting at (32, 32), and the canvas adds a 32-unit margin to the
/// bounding box of all boxes.
pub open spec fn svg_map_spec(t: Tree) -> Seq<char> {
    let m = layout_spec(t, 32, 32, svg_map_params());
    let b = bbox_node(m, (0, 0));
    svg_document(m, b.0 + 32, b.1 + 32)
}

/// The bounding-box accumulator never shrinks the running maxima.
pub proof fn lemma_bbox_mono(m: LayoutModel, acc: (int, int))
    ensures
        bbox_node(m, acc).0 >= acc.0,
        bbox_node(m, acc).1 >= acc.1,
    decreases m,
{
    let right = m.x + m.width;
    let bottom = m.y + 32;
    let a = (
        if right > acc.0 {
            right
        } else {
            acc.0
        },
        if bottom > acc.1 {
            bottom
        } else {
            acc.1
        },
    );
    lemma_bbox_forest_mono(m.children, a);
}

/// `lemma_bbox_mono` over a forest.
pub proof fn lemma_bbox_forest_mono(ms: Seq<LayoutModel>, acc: (int, int))
    ensures
        bbox_forest(ms, acc).0 >= acc.0,
        bbox_forest(ms, acc).1 >= acc.1,
    decreases ms,
{
    if ms.len() > 0 {
        lemma_bbox_mono(ms[0], acc);
        lemma_bbox_forest_mono(ms.drop_first(), bbox_node(ms[0], acc));
    }
}

/// Generates an SVG map of a directory tree: lays the tree out with the
/// fixed parameters, sizes the canvas to the bounding box plus a 32-unit
/// margin on each dimension, and renders the document.
pub fn generate_svg_map(tree: &TreeNode) -> (r: String)
    requires
        model_fits(layout_spec(tree@, 32, 32, svg_map_params()), svg_map_params()),
        bbox_node(layout_spec(tree@, 32, 32, svg_map_params()), (0, 0)).0 + 32 <= 0x7fff_ffff,
        bbox_node(layout_spec(tree@, 32, 32, svg_map_params()), (0, 0)).1 + 32 <= 0x7fff_ffff,
    ensures
        r@ == svg_map_spec(tree@),
{
    proof {
        assert(params(40, 20, 10, 18, 80, 32) == svg_map_params());
    }
    let layout = layout_tree(tree, 32, 32, 40, 20, 10, 18, 80, 32);
    proof {
        lemma_layout_spec_wf(tree@, 32, 32, svg_map_params());
        lemma_model_canvas_fits(layout@, svg_map_params());
        lemma_bbox_mono(layout@, (0, 0));
    }
    let mut max = (0i32, 0i32);
    layout_bbox(&layout, &mut max);
    let svg_width = max.0 + 32;
    let svg_height = max.1 + 32;
    generate_svg_content(&layout, svg_width, svg_height)
}

/// Each member of a fitting forest fits.
pub proof fn lemma_forest_fits_at(ms: Seq<LayoutModel>, p: LayoutParams, i: int)
    requires
        forest_fits(ms, p),
        0 <= i < ms.len(),
    ensures
        model_fits(ms[i], p),
    decreases ms.len(),
{
    if i > 0 {
        lemma_forest_fits_at(ms.drop_first(), p, i - 1);
    }
}

/// A laid-out node's box never starts above its slot, and its height is at
/// least the minimum.
pub proof fn lemma_layout_spec_basic(t: Tree, x: int, y: int, p: LayoutParams)
    requires
        params_ok(p),
    ensures
        layout_spec(t, x, y, p).y >= y,
        layout_spec(t, x, y, p).height >= p.min_height,
        layout_spec(t, x, y, p).x == x,
        layout_spec(t, x, y, p).width == width_of(t.name.len() as int, p),
        layout_spec(t, x, y, p).name == t.name,
        layout_spec(t, x, y, p).kind == t.kind,
{
}

/// Every box in a laid-out forest has at least the minimum height and
/// starts no higher than the forest's starting `y`.
pub proof fn lemma_layout_forest_spec_basic(ts: Seq<Tree>, x: int, y: int, p: LayoutParams)
    requires
        params_ok(p),
    ensures
        layout_forest_spec(ts, x, y, p).len() == ts.len(),
        forall|i: int|
            0 <= i < ts.len() ==> #[trigger] layout_forest_spec(ts, x, y, p)[i].height
                >= p.min_height,
        forall|i: int| 0 <= i < ts.len() ==> #[trigger] layout_forest_spec(ts, x, y, p)[i].y >= y,
    decreases ts.len(),
{
    if ts.len() > 0 {
        let first = layout_spec(ts[0], x, y, p);
        lemma_layout_spec_basic(ts[0], x, y, p);
        lemma_layout_forest_spec_basic(ts.drop_first(), x, y + first.height + p.v_spacing, p);
        let ms = layout_forest_spec(ts, x, y, p);
        let rest = layout_forest_spec(ts.drop_first(), x, y + first.height + p.v_spacing, p);
        assert forall|i: int| 0 <= i < ts.len() implies #[trigger] ms[i].height >= p.min_height
            && ms[i].y >= y by {
            if i > 0 {
                assert(ms[i] == rest[i - 1]);
            }
        }
    }
}

/// The stacked height of a prefix never exceeds that of the whole forest,
/// and stacked heights of forests with nonnegative box heights are
/// nonnegative.
pub proof fn lemma_stacked_height_take(ms: Seq<LayoutModel>, vs: int, k: int)
    requires
        0 <= vs,
        0 <= k <= ms.len(),
        forall|i: int| 0 <= i < ms.len() ==> #[trigger] ms[i].height >= 0,
    ensures
        stacked_height(ms.take(k), vs) <= stacked_height(ms, vs),
        0 <= stacked_height(ms.take(k), vs),
        0 <= stacked_height(ms, vs),
    decreases ms.len(),
{
    if ms.len() == 0 {
        assert(ms.take(k) =~= ms);
    } else if k == ms.len() {
        assert(ms.take(k) =~= ms);
        lemma_stacked_height_take(ms.drop_last(), vs, ms.len() - 1);
        assert(ms.drop_last().take(ms.len() - 1) =~= ms.drop_last());
    } else {
        lemma_stacked_height_take(ms.drop_last(), vs, k);
        assert(ms.take(k) =~= ms.drop_last().take(k));
    }
}

} // verus!
