//! The diagram-model renderer: emits the node/edge diagram document from
//! the fixed-grid layout, re-centered so the diagram starts at x = 0 and is
//! vertically centered on y = 0, with every label escaped for XML.

use crate::drawio_layout::{
    cells_of, edges_view, grid_cells, grid_cells_forest, grid_edges, grid_fits, grid_fits_forest,
    layout_tree, lemma_tree_size_pos, node_layout_wf, GridCell, NodeLayout,
};
use crate::text::{append_escaped, append_u64_dec, dec_int, escape_seq};
use crate::{tree_size, NodeType, Tree, TreeNode};
use vstd::prelude::*;

verus! {

/// Width of a diagram cell: 12 units per label character plus 32 of
/// padding, but never less than 80.
pub open spec fn cell_width(name: Seq<char>) -> int {
    let w = name.len() as int * 12 + 32;
    if w >= 80 {
        w
    } else {
        80
    }
}

/// The style string for a node of the given kind.
pub open spec fn mx_style(kind: NodeType) -> Seq<char> {
    match kind {
        NodeType::Directory => "rounded=1;arcSize=30;fillColor=#00fff7;strokeColor=#00fff7;strokeWidth=3.5;opacity=92;fontColor=#000;fontSize=16;fontFamily=monospace;shadow=1;glow=1;glowColor=#00fff7;"@,
        NodeType::File => "rounded=1;arcSize=30;fillColor=#39ff14;strokeColor=#39ff14;strokeWidth=3.5;opacity=92;fontColor=#000;fontSize=16;fontFamily=monospace;shadow=1;glow=1;glowColor=#39ff14;"@,
    }
}

/// The style string for a node of the given kind.
pub fn mx_style_str(kind: NodeType) -> (r: &'static str)
    ensures
        r@ == mx_style(kind),
{
    match kind {
        NodeType::Directory => "rounded=1;arcSize=30;fillColor=#00fff7;strokeColor=#00fff7;strokeWidth=3.5;opacity=92;fontColor=#000;fontSize=16;fontFamily=monospace;shadow=1;glow=1;glowColor=#00fff7;",
        NodeType::File => "rounded=1;arcSize=30;fillColor=#39ff14;strokeColor=#39ff14;strokeWidth=3.5;opacity=92;fontColor=#000;fontSize=16;fontFamily=monospace;shadow=1;glow=1;glowColor=#39ff14;",
    }
}

/// One vertex cell: id, escaped label, kind style, and its geometry as
/// printed.
#[verifier::opaque]
pub open spec fn mx_cell_markup(
    id: int,
    name: Seq<char>,
    kind: NodeType,
    x: int,
    y: int,
    w: int,
) -> Seq<char> {
    "<mxCell id=\""@ + dec_int(id) + "\" value=\""@ + escape_seq(name) + "\" style=\""@ + mx_style(
        kind,
    ) + "\" parent=\"1\" vertex=\"1\"><mxGeometry x=\""@ + dec_int(x) + "\" y=\""@ + dec_int(y)
        + "\" width=\""@ + dec_int(w) + "\" height=\"32\" as=\"geometry\"/></mxCell>\n"@
}

/// One edge cell between the vertices with ids `p` and `c`.
#[verifier::opaque]
pub open spec fn mx_edge_markup(p: int, c: int) -> Seq<char> {
    "<mxCell id=\"e"@ + dec_int(p) + "_"@ + dec_int(c) + "\" edge=\"1\" parent=\"1\" source=\""@
        + dec_int(p) + "\" target=\""@ + dec_int(c)
        + "\" style=\"endArrow=none;strokeColor=#00fff7;strokeWidth=3.5;opacity=88;curved=1;shadow=1;glow=1;glowColor=#00fff7;\"><mxGeometry relative=\"1\" as=\"geometry\"/></mxCell>\n"@
}

/// The vertex cells of `cells` in id order, where cell `k` has id
/// `base + k`, each shifted by the centering offsets.
pub open spec fn cells_markup(cells: Seq<GridCell>, base: int, ox: int, oy: int) -> Seq<char>
    decreases cells.len(),
{
    if cells.len() == 0 {
        Seq::empty()
    } else {
        let c = cells.last();
        cells_markup(cells.drop_last(), base, ox, oy) + mx_cell_markup(
            base + cells.len() - 1,
            c.name,
            c.kind,
            c.x + ox,
            c.y + oy,
            cell_width(c.name),
        )
    }
}

/// The edge cells of `es`, in order.
pub open spec fn edges_markup(es: Seq<(int, int)>) -> Seq<char>
    decreases es.len(),
{
    if es.len() == 0 {
        Seq::empty()
    } else {
        edges_markup(es.drop_last()) + mx_edge_markup(es.last().0, es.last().1)
    }
}

/// The fold that computes (min x, max x, min y, max y) over the cells.
pub open spec fn grid_bounds(cells: Seq<GridCell>, acc: (int, int, int, int)) -> (
    int,
    int,
    int,
    int,
)
    decreases cells.len(),
{
    if cells.len() == 0 {
        acc
    } else {
        let b = grid_bounds(cells.drop_last(), acc);
        let c = cells.last();
        (
            if c.x < b.0 {
                c.x
            } else {
                b.0
            },
            if c.x > b.1 {
                c.x
            } else {
                b.1
            },
            if c.y < b.2 {
                c.y
            } else {
                b.2
            },
            if c.y > b.3 {
                c.y
            } else {
                b.3
            },
        )
    }
}

/// The bounds fold encloses every cell and never moves past its seed.
pub proof fn lemma_grid_bounds(cells: Seq<GridCell>, acc: (int, int, int, int))
    ensures
        grid_bounds(cells, acc).0 <= acc.0,
        grid_bounds(cells, acc).1 >= acc.1,
        grid_bounds(cells, acc).2 <= acc.2,
        grid_bounds(cells, acc).3 >= acc.3,
        forall|i: int|
            0 <= i < cells.len() ==> #[trigger] cells[i].x >= grid_bounds(cells, acc).0
                && cells[i].x <= grid_bounds(cells, acc).1 && cells[i].y >= grid_bounds(
                cells,
                acc,
            ).2 && cells[i].y <= grid_bounds(cells, acc).3,
        ((forall|i: int|
            0 <= i < cells.len() ==> 0 <= #[trigger] cells[i].x <= 0x7fff_ffff && 0 <= cells[i].y
                <= 0x7fff_ffff) && 0 <= acc.0 && acc.1 <= 0x7fff_ffff && 0 <= acc.2 && acc.3
            <= 0x7fff_ffff) ==> (0 <= grid_bounds(cells, acc).0 && grid_bounds(cells, acc).1
            <= 0x7fff_ffff && 0 <= grid_bounds(cells, acc).2 && grid_bounds(cells, acc).3
            <= 0x7fff_ffff),
    decreases cells.len(),
{
    if cells.len() > 0 {
        lemma_grid_bounds(cells.drop_last(), acc);
        let b = grid_bounds(cells, acc);
        let bd = grid_bounds(cells.drop_last(), acc);
        assert forall|i: int|
            0 <= i < cells.len() implies #[trigger] cells[i].x >= b.0 && cells[i].x <= b.1
            && cells[i].y >= b.2 && cells[i].y <= b.3 by {
            if i < cells.len() - 1 {
                assert(cells[i] == cells.drop_last()[i]);
                assert(cells[i].x >= bd.0 && cells[i].x <= bd.1 && cells[i].y >= bd.2 && cells[i].y
                    <= bd.3);
            } else {
                assert(cells[i] == cells.last());
            }
        }
    }
}

/// Every cell of a grid layout that fits has coordinates in `[0, i32::MAX]`
/// and a cell width that fits, and there is one cell per tree node.
pub proof fn lemma_grid_cells_bounds(t: Tree, depth: int, y: int, id: int)
    requires
        grid_fits(t, depth, y, id),
    ensures
        grid_cells(t, depth, y).len() == tree_size(t),
        forall|i: int|
            0 <= i < grid_cells(t, depth, y).len() ==> {
                let c = #[trigger] grid_cells(t, depth, y)[i];
                0 <= c.x <= 0x7fff_ffff && 0 <= c.y <= 0x7fff_ffff && c.name.len() * 12 + 32
                    <= 0x7fff_ffff
            },
    decreases t,
{
    assert(depth * 240 >= 0) by (nonlinear_arith)
        requires
            depth >= 0,
    ;
    lemma_grid_cells_forest_bounds(t.children, depth + 1, y, id + 1);
    let own = GridCell { name: t.name, kind: t.kind, x: depth * 240, y: y };
    let rest = grid_cells_forest(t.children, depth + 1, y);
    assert(grid_cells(t, depth, y) == seq![own] + rest);
    assert(forall|i: int|
        1 <= i < grid_cells(t, depth, y).len() ==> #[trigger] grid_cells(t, depth, y)[i] == rest[i
            - 1]);
}

/// `lemma_grid_cells_bounds` over a forest.
pub proof fn lemma_grid_cells_forest_bounds(ts: Seq<Tree>, depth: int, y: int, id: int)
    requires
        grid_fits_forest(ts, depth, y, id),
    ensures
        grid_cells_forest(ts, depth, y).len() == crate::forest_size(ts),
        forall|i: int|
            0 <= i < grid_cells_forest(ts, depth, y).len() ==> {
                let c = #[trigger] grid_cells_forest(ts, depth, y)[i];
                0 <= c.x <= 0x7fff_ffff && 0 <= c.y <= 0x7fff_ffff && c.name.len() * 12 + 32
                    <= 0x7fff_ffff
            },
    decreases ts,
{
    if ts.len() > 0 {
        lemma_grid_cells_bounds(ts[0], depth, y, id);
        lemma_grid_cells_forest_bounds(ts.drop_first(), depth, y + 90, id + tree_size(ts[0]));
        let own = grid_cells(ts[0], depth, y);
        let rest = grid_cells_forest(ts.drop_first(), depth, y + 90);
        assert(grid_cells_forest(ts, depth, y) == own + rest);
        assert(forall|i: int|
            own.len() <= i < own.len() + rest.len() ==> #[trigger] grid_cells_forest(
                ts,
                depth,
                y,
            )[i] == rest[i - own.len()]);
    }
}

/// Appends one vertex cell to `xml`.
fn append_mx_cell(xml: &mut String, id: u64, name: &str, kind: NodeType, x: i32, y: i32, w: i32)
    ensures
        final(xml)@ == old(xml)@ + mx_cell_markup(
            id as int,
            name@,
            kind,
            x as int,
            y as int,
            w as int,
        ),
{
    xml.append("<mxCell id=\"");
    append_u64_dec(xml, id);
    xml.append("\" value=\"");
    append_escaped(xml, name);
    xml.append("\" style=\"");
    xml.append(mx_style_str(kind));
    xml.append("\" parent=\"1\" vertex=\"1\"><mxGeometry x=\"");
    crate::text::append_i32_dec(xml, x);
    xml.append("\" y=\"");
    crate::text::append_i32_dec(xml, y);
    xml.append("\" width=\"");
    crate::text::append_i32_dec(xml, w);
    xml.append("\" height=\"32\" as=\"geometry\"/></mxCell>\n");
    proof {
        reveal(mx_cell_markup);
        assert(final(xml)@ =~= old(xml)@ + mx_cell_markup(
            id as int,
            name@,
            kind,
            x as int,
            y as int,
            w as int,
        ));
    }
}

/// Appends one edge cell to `xml`.
fn append_mx_edge(xml: &mut String, p: u32, c: u32)
    ensures
        final(xml)@ == old(xml)@ + mx_edge_markup(p as int, c as int),
{
    xml.append("<mxCell id=\"e");
    append_u64_dec(xml, p as u64);
    xml.append("_");
    append_u64_dec(xml, c as u64);
    xml.append("\" edge=\"1\" parent=\"1\" source=\"");
    append_u64_dec(xml, p as u64);
    xml.append("\" target=\"");
    append_u64_dec(xml, c as u64);
    xml.append(
        "\" style=\"endArrow=none;strokeColor=#00fff7;strokeWidth=3.5;opacity=88;curved=1;shadow=1;glow=1;glowColor=#00fff7;\"><mxGeometry relative=\"1\" as=\"geometry\"/></mxCell>\n",
    );
    proof {
        reveal(mx_edge_markup);
        assert(final(xml)@ =~= old(xml)@ + mx_edge_markup(p as int, c as int));
    }
}

/// The whole diagram-model document for a tree: the model header, the two
/// reserved canvas cells, one vertex cell per node in id order shifted by
/// the centering offsets, then one edge cell per recorded edge.
pub open spec fn mx_model_spec(t: Tree) -> Seq<char> {
    let cells = grid_cells(t, 0, 0);
    let b = grid_bounds(
        cells,
        (0x7fff_ffff as int, -0x8000_0000 as int, 0x7fff_ffff as int, -0x8000_0000 as int),
    );
    let ox = -b.0;
    let oy = -b.2 - (b.3 - b.2) / 2;
    "<mxGraphModel background=\"#000000\"><root>\n"@ + "\n"@
        + "<mxCell id=\"0\" />\n<mxCell id=\"1\" parent=\"0\" />\n"@ + cells_markup(
        cells,
        2,
        ox,
        oy,
    ) + edges_markup(grid_edges(t, 2)) + "</root></mxGraphModel>"@
}

/// Renders the diagram-model document for `root`: lays the tree out on the
/// fixed grid, computes the bounding box of all positions, shifts the whole
/// diagram so it starts at x = 0 and is vertically centered on y = 0, and
/// emits all vertex cells (in id order) before all edge cells.
/// Computes (min x, max x, min y, max y) over all recorded positions,
/// seeded as the accumulator fold is.
fn position_bounds(layout: &NodeLayout, Ghost(cells): Ghost<Seq<GridCell>>) -> (r: (
    i32,
    i32,
    i32,
    i32,
))
    requires
        cells_of(*layout) == cells,
    ensures
        (r.0 as int, r.1 as int, r.2 as int, r.3 as int) == grid_bounds(
            cells,
            (0x7fff_ffff as int, -0x8000_0000 as int, 0x7fff_ffff as int, -0x8000_0000 as int),
        ),
{
    let ghost acc0 = (
        0x7fff_ffff as int,
        -0x8000_0000 as int,
        0x7fff_ffff as int,
        -0x8000_0000 as int,
    );
    let n = layout.positions.len();
    proof {
        assert(cells.len() == n);
    }
    let mut min_x: i32 = 2147483647;
    let mut max_x: i32 = -2147483648;
    let mut min_y: i32 = 2147483647;
    let mut max_y: i32 = -2147483648;
    let mut k: usize = 0;
    while k < n
        invariant
            k <= n,
            n == layout.positions.len(),
            cells_of(*layout) == cells,
            cells.len() == n,
            (min_x as int, max_x as int, min_y as int, max_y as int) == grid_bounds(
                cells.take(k as int),
                acc0,
            ),
        decreases n - k,
    {
        let (px, py) = layout.positions[k];
        proof {
            assert(cells.take(k as int + 1).drop_last() =~= cells.take(k as int));
            assert(cells.take(k as int + 1).last() == cells[k as int]);
            assert(cells[k as int].x == px as int && cells[k as int].y == py as int);
        }
        if px < min_x {
            min_x = px;
        }
        if px > max_x {
            max_x = px;
        }
        if py < min_y {
            min_y = py;
        }
        if py > max_y {
            max_y = py;
        }
        k = k + 1;
    }
    proof {
        assert(cells.take(n as int) =~= cells);
    }
    (min_x, max_x, min_y, max_y)
}

/// Emits one vertex cell per recorded node, in id order, shifted by the
/// centering offsets.
#[verifier::rlimit(50)]
fn emit_cells(
    xml: &mut String,
    layout: &NodeLayout,
    offset_x: i32,
    offset_y: i32,
    Ghost(cells): Ghost<Seq<GridCell>>,
    Ghost(b): Ghost<(int, int, int, int)>,
)
    requires
        node_layout_wf(*layout),
        cells_of(*layout) == cells,
        cells.len() <= 0xffff_ffff,
        offset_x as int == -b.0,
        offset_y as int == -b.2 - (b.3 - b.2) / 2,
        0 <= b.0 <= 0x7fff_ffff,
        0 <= b.2 <= b.3 <= 0x7fff_ffff,
        forall|i: int|
            0 <= i < cells.len() ==> #[trigger] cells[i].x >= b.0 && cells[i].x <= 0x7fff_ffff
                && cells[i].y >= b.2 && cells[i].y <= 0x7fff_ffff && cells[i].name.len() * 12 + 32
                <= 0x7fff_ffff,
    ensures
        final(xml)@ == old(xml)@ + cells_markup(cells, 2, offset_x as int, offset_y as int),
{
    let ghost ox = offset_x as int;
    let ghost oy = offset_y as int;
    let n = layout.positions.len();
    proof {
        assert(cells.len() == n);
        assert(cells_markup(cells.take(0), 2, ox, oy) =~= Seq::<char>::empty());
        assert(xml@ =~= old(xml)@ + cells_markup(cells.take(0), 2, ox, oy));
    }
    let mut k: usize = 0;
    while k < n
        invariant
            k <= n,
            n <= 0xffff_ffff,
            n == layout.positions.len(),
            layout.id_to_node.len() == n,
            cells_of(*layout) == cells,
            cells.len() == n,
            offset_x as int == ox,
            offset_y as int == oy,
            ox == -b.0,
            oy == -b.2 - (b.3 - b.2) / 2,
            forall|i: int|
                0 <= i < cells.len() ==> #[trigger] cells[i].x >= b.0 && cells[i].x
                    <= 0x7fff_ffff && cells[i].y >= b.2 && cells[i].y <= 0x7fff_ffff
                    && cells[i].name.len() * 12 + 32 <= 0x7fff_ffff,
            0 <= b.0 <= 0x7fff_ffff,
            0 <= b.2 <= b.3 <= 0x7fff_ffff,
            xml@ == old(xml)@ + cells_markup(cells.take(k as int), 2, ox, oy),
        decreases n - k,
    {
        let (px, py) = layout.positions[k];
        let label_len = layout.id_to_node[k].name.as_str().unicode_len();
        proof {
            assert(cells[k as int].name == layout.id_to_node@[k as int].name@);
            assert(cells[k as int].x == px as int && cells[k as int].y == py as int);
            assert((b.3 - b.2) / 2 <= b.3 - b.2 && (b.3 - b.2) / 2 >= 0);
            assert(px as int + offset_x as int >= 0);
            assert(px as int + offset_x as int <= 0x7fff_ffff);
            assert(py as int + offset_y as int >= -0x8000_0000);
            assert(py as int + offset_y as int <= 0x7fff_ffff);
        }
        let label_len_i = label_len as i32;
        let w = label_len_i * 12 + 32;
        let width = if w >= 80 {
            w
        } else {
            80
        };
        proof {
            assert(width as int == cell_width(cells[k as int].name));
        }
        append_mx_cell(
            xml,
            k as u64 + 2,
            layout.id_to_node[k].name.as_str(),
            layout.id_to_node[k].node_type,
            px + offset_x,
            py + offset_y,
            width,
        );
        proof {
            assert(cells.take(k as int + 1).drop_last() =~= cells.take(k as int));
            assert(cells.take(k as int + 1).last() == cells[k as int]);
            assert(cells[k as int].kind == layout.id_to_node@[k as int].node_type);
            assert(xml@ =~= old(xml)@ + cells_markup(cells.take(k as int + 1), 2, ox, oy));
        }
        k = k + 1;
    }
    proof {
        assert(cells.take(n as int) =~= cells);
    }
}

/// Emits one edge cell per recorded edge, in order.
fn emit_edges(xml: &mut String, edges: &Vec<(u32, u32)>)
    ensures
        final(xml)@ == old(xml)@ + edges_markup(edges_view(edges@)),
{
    let ghost all_edges = edges_view(edges@);
    let ne = edges.len();
    proof {
        assert(all_edges.len() == ne);
        assert(edges_markup(all_edges.take(0)) =~= Seq::<char>::empty());
        assert(xml@ =~= old(xml)@ + edges_markup(all_edges.take(0)));
    }
    let mut k: usize = 0;
    while k < ne
        invariant
            k <= ne,
            ne == edges.len(),
            edges_view(edges@) == all_edges,
            all_edges.len() == ne,
            xml@ == old(xml)@ + edges_markup(all_edges.take(k as int)),
        decreases ne - k,
    {
        let (p, c) = edges[k];
        proof {
            assert(all_edges.take(k as int + 1).drop_last() =~= all_edges.take(k as int));
            assert(all_edges.take(k as int + 1).last() == all_edges[k as int]);
            assert(all_edges[k as int] == (p as int, c as int));
        }
        append_mx_edge(xml, p, c);
        proof {
            assert(xml@ =~= old(xml)@ + edges_markup(all_edges.take(k as int + 1)));
        }
        k = k + 1;
    }
    proof {
        assert(all_edges.take(ne as int) =~= all_edges);
    }
}

/// Renders the diagram-model document for `root`: lays the tree out on the
/// fixed grid, computes the bounding box of all positions, shifts the whole
/// diagram so it starts at x = 0 and is vertically centered on y = 0, and
/// emits all vertex cells (in id order) before all edge cells.
pub fn generate_mxgraphmodel_xml(root: &TreeNode) -> (r: String)
    requires
        grid_fits(root@, 0, 0, 2),
    ensures
        r@ == mx_model_spec(root@),
{
    let ghost t = root@;
    let ghost cells = grid_cells(t, 0, 0);
    let ghost acc0 = (
        0x7fff_ffff as int,
        -0x8000_0000 as int,
        0x7fff_ffff as int,
        -0x8000_0000 as int,
    );
    let ghost b = grid_bounds(cells, acc0);
    let mut xml = String::new();
    xml.append("<mxGraphModel background=\"#000000\"><root>\n");
    xml.append("\n");
    xml.append("<mxCell id=\"0\" />\n<mxCell id=\"1\" parent=\"0\" />\n");
    let ghost head = xml@;
    let mut layout = NodeLayout::new();
    let mut x_offset: i32 = 0;
    let mut edges: Vec<(u32, u32)> = Vec::new();
    let _root_id = layout_tree(root, 0, &mut x_offset, &mut layout, 1, &mut edges);
    proof {
        assert(cells_of(layout) =~= cells);
        assert(edges_view(edges@) =~= grid_edges(t, 2));
        lemma_grid_cells_bounds(t, 0, 0, 2);
        lemma_grid_bounds(cells, acc0);
        lemma_tree_size_pos(t);
        assert(cells[0].x <= b.1 && cells[0].x >= b.0);
        assert(cells[0].y <= b.3 && cells[0].y >= b.2);
        assert(0 <= b.0 <= 0x7fff_ffff);
        assert(0 <= b.2 <= b.3 <= 0x7fff_ffff);
        assert(cells.len() <= 0xffff_ffff);
    }
    let (min_x, _max_x, min_y, max_y) = position_bounds(&layout, Ghost(cells));
    let bbox_height = max_y - min_y;
    let offset_x = -min_x;
    let offset_y = -min_y - bbox_height / 2;
    proof {
        assert((b.3 - b.2) / 2 <= b.3 - b.2 && (b.3 - b.2) / 2 >= 0);
        assert(offset_x as int == -b.0);
        assert(offset_y as int == -b.2 - (b.3 - b.2) / 2);
    }
    emit_cells(&mut xml, &layout, offset_x, offset_y, Ghost(cells), Ghost(b));
    emit_edges(&mut xml, &edges);
    xml.append("</root></mxGraphModel>");
    proof {
        assert(xml@ =~= mx_model_spec(t));
    }
    xml
}

/// Generates a full draw.io file XML for saving to disk: the diagram-model
/// document wrapped in the fixed container template with the fixed document
/// name.
pub fn generate_drawio_file_xml(root: &TreeNode) -> (r: String)
    requires
        grid_fits(root@, 0, 0, 2),
    ensures
        r@ == "<?xml version=\"1.0\" encoding=\"UTF-8\"?>\n<mxfile host=\"app.diagrams.net\">\n  <diagram name=\"Project Map\">"@
            + mx_model_spec(root@) + "</diagram>\n</mxfile>"@,
{
    let model = generate_mxgraphmodel_xml(root);
    let mut out = String::new();
    out.append(
        "<?xml version=\"1.0\" encoding=\"UTF-8\"?>\n<mxfile host=\"app.diagrams.net\">\n  <diagram name=\"Project Map\">",
    );
    out.append(model.as_str());
    out.append("</diagram>\n</mxfile>");
    proof {
        assert(out@ =~= "<?xml version=\"1.0\" encoding=\"UTF-8\"?>\n<mxfile host=\"app.diagrams.net\">\n  <diagram name=\"Project Map\">"@
            + mx_model_spec(root@) + "</diagram>\n</mxfile>"@);
    }
    out
}

/// The style string of the simpler one-cell-per-node emitter.
pub open spec fn simple_style(kind: NodeType) -> Seq<char> {
    match kind {
        NodeType::Directory => "rounded=1;fillColor=#00fff7;strokeColor=#00fff7;opacity=92;fontColor=#000000;fontStyle=1;"@,
        NodeType::File => "rounded=1;fillColor=#39ff14;strokeColor=#39ff14;opacity=92;fontColor=#000000;fontStyle=1;"@,
    }
}

/// The style string of the simpler one-cell-per-node emitter.
pub fn simple_style_str(kind: NodeType) -> (r: &'static str)
    ensures
        r@ == simple_style(kind),
{
    match kind {
        NodeType::Directory => "rounded=1;fillColor=#00fff7;strokeColor=#00fff7;opacity=92;fontColor=#000000;fontStyle=1;",
        NodeType::File => "rounded=1;fillColor=#39ff14;strokeColor=#39ff14;opacity=92;fontColor=#000000;fontStyle=1;",
    }
}

/// One cell of the simpler emitter: rectangles for all nodes, the diagonal
/// position `50 * id`, and the node's real parent cell.
#[verifier::opaque]
pub open spec fn simple_cell_markup(id: int, parent: int, name: Seq<char>, kind: NodeType) -> Seq<
    char,
> {
    "<mxCell id=\""@ + dec_int(id) + "\" value=\""@ + escape_seq(name) + "\" style=\""@
        + simple_style(kind) + "\" parent=\""@ + dec_int(parent)
        + "\" vertex=\"1\"><mxGeometry x=\""@ + dec_int(50 * id) + "\" y=\""@ + dec_int(50 * id)
        + "\" width=\"120\" height=\"40\" as=\"geometry\"/></mxCell>\n"@
}

/// The cells the simpler emitter writes for a subtree, in pre-order.
pub open spec fn simple_cells(t: Tree, parent: int, id: int) -> Seq<char>
    decreases t,
{
    simple_cell_markup(id, parent, t.name, t.kind) + simple_cells_forest(t.children, id, id + 1)
}

/// `simple_cells` over a sequence of sibling subtrees.
pub open spec fn simple_cells_forest(ts: Seq<Tree>, parent: int, id: int) -> Seq<char>
    decreases ts,
{
    if ts.len() == 0 {
        Seq::empty()
    } else {
        simple_cells(ts[0], parent, id) + simple_cells_forest(
            ts.drop_first(),
            parent,
            id + tree_size(ts[0]),
        )
    }
}

/// The edges the simpler emitter records for a subtree: for each child in
/// order, the edge to that child first, then the child's own edges.
pub open spec fn simple_edges(t: Tree, id: int) -> Seq<(int, int)>
    decreases t,
{
    simple_edges_forest(t.children, id, id + 1)
}

/// `simple_edges` over a sequence of sibling subtrees.
pub open spec fn simple_edges_forest(ts: Seq<Tree>, parent: int, id: int) -> Seq<(int, int)>
    decreases ts,
{
    if ts.len() == 0 {
        Seq::empty()
    } else {
        seq![(parent, id)] + simple_edges(ts[0], id) + simple_edges_forest(
            ts.drop_first(),
            parent,
            id + tree_size(ts[0]),
        )
    }
}

/// Appends one cell of the simpler emitter.
fn append_simple_cell(xml: &mut String, id: u32, parent: u32, name: &str, kind: NodeType)
    requires
        50 * (id as int) <= 0xffff_ffff,
    ensures
        final(xml)@ == old(xml)@ + simple_cell_markup(id as int, parent as int, name@, kind),
{
    let coord = 50 * id;
    xml.append("<mxCell id=\"");
    append_u64_dec(xml, id as u64);
    xml.append("\" value=\"");
    append_escaped(xml, name);
    xml.append("\" style=\"");
    xml.append(simple_style_str(kind));
    xml.append("\" parent=\"");
    append_u64_dec(xml, parent as u64);
    xml.append("\" vertex=\"1\"><mxGeometry x=\"");
    append_u64_dec(xml, coord as u64);
    xml.append("\" y=\"");
    append_u64_dec(xml, coord as u64);
    xml.append("\" width=\"120\" height=\"40\" as=\"geometry\"/></mxCell>\n");
    proof {
        reveal(simple_cell_markup);
        assert(final(xml)@ =~= old(xml)@ + simple_cell_markup(
            id as int,
            parent as int,
            name@,
            kind,
        ));
    }
}

/// The simpler one-pass emitter: appends one rectangle cell per node of the
/// subtree, pre-order, each at the diagonal position `50 * id`, recording
/// the edge to each child just before descending into it.
pub fn add_node_xml_with_edges(
    node: &TreeNode,
    parent_id: u32,
    id: &mut u32,
    xml: &mut String,
    edges: &mut Vec<(u32, u32)>,
)
    requires
        50 * (*old(id) as int + tree_size(node@)) <= 0xffff_ffff,
    ensures
        *final(id) as int == *old(id) as int + tree_size(node@),
        final(xml)@ == old(xml)@ + simple_cells(node@, parent_id as int, *old(id) as int),
        edges_view(final(edges)@) == edges_view(old(edges)@) + simple_edges(
            node@,
            *old(id) as int,
        ),
    decreases *node,
{
    broadcast use vstd::std_specs::vec::axiom_vec_index_decreases;

    let ghost t = node@;
    let this_id = *id;
    proof {
        lemma_tree_size_pos(t);
    }
    *id = *id + 1;
    append_simple_cell(xml, this_id, parent_id, node.name.as_str(), node.node_type);
    let ghost cells_total = old(xml)@ + simple_cells(t, parent_id as int, this_id as int);
    let ghost edges_total = edges_view(old(edges)@) + simple_edges(t, this_id as int);
    let n = node.children.len();
    proof {
        crate::lemma_forest_view_index(node.children@, 0);
        assert(t.children.len() == n);
        assert(t.children.skip(0) =~= t.children);
        assert(xml@ + simple_cells_forest(t.children.skip(0), this_id as int, *id as int)
            =~= cells_total);
        assert(edges_view(edges@) + simple_edges_forest(
            t.children.skip(0),
            this_id as int,
            *id as int,
        ) =~= edges_total);
        assert(crate::forest_size(t.children) == tree_size(t) - 1);
    }
    let mut k: usize = 0;
    while k < n
        invariant
            k <= n,
            n == node.children.len(),
            t == node@,
            t.children.len() == n,
            this_id as int == *old(id) as int,
            *id as int == *old(id) as int + tree_size(t) - crate::forest_size(
                t.children.skip(k as int),
            ),
            50 * (*old(id) as int + tree_size(t)) <= 0xffff_ffff,
            xml@ + simple_cells_forest(t.children.skip(k as int), this_id as int, *id as int)
                == cells_total,
            edges_view(edges@) + simple_edges_forest(
                t.children.skip(k as int),
                this_id as int,
                *id as int,
            ) == edges_total,
        decreases n - k,
    {
        proof {
            crate::lemma_forest_view_index(node.children@, k as int);
            assert(t.children.skip(k as int)[0] == t.children[k as int]);
            assert(t.children.skip(k as int).drop_first() =~= t.children.skip(k as int + 1));
            assert(crate::forest_size(t.children.skip(k as int)) == tree_size(
                t.children[k as int],
            ) + crate::forest_size(t.children.skip(k as int + 1)));
            lemma_tree_size_pos(t.children[k as int]);
        }
        let ghost pre_id = *id as int;
        let child_id = *id;
        edges.push((this_id, child_id));
        proof {
            assert(edges_view(edges@) =~= edges_view(edges@.drop_last()) + seq![
                (this_id as int, child_id as int),
            ]);
        }
        add_node_xml_with_edges(&node.children[k], this_id, id, xml, edges);
        proof {
            assert(edges_view(edges@) + simple_edges_forest(
                t.children.skip(k as int + 1),
                this_id as int,
                *id as int,
            ) =~= edges_total);
            assert(xml@ + simple_cells_forest(
                t.children.skip(k as int + 1),
                this_id as int,
                *id as int,
            ) =~= cells_total);
        }
        k = k + 1;
    }
    proof {
        assert(t.children.skip(n as int) =~= Seq::<Tree>::empty());
        assert(xml@ =~= cells_total);
        assert(edges_view(edges@) =~= edges_total);
    }
}

} // verus!
