use base64::Engine;
use mapper::drawio_compress::compress_and_encode;
use mapper::drawio_launcher::drawio_url;
use mapper::drawio_layout::NodeLayout;
use mapper::drawio_xml::{generate_drawio_file_xml, generate_mxgraphmodel_xml};
use mapper::svg_map::{generate_svg_content, generate_svg_map, layout_bbox, layout_tree};
use mapper::tree_build::{node_precedes, should_exclude, sort_children, str_lt};
use mapper::{MapperError, NodeType, TreeNode};
use std::io::Read;

fn file(name: &str) -> TreeNode {
    TreeNode { name: name.to_string(), node_type: NodeType::File, children: vec![] }
}

fn dir(name: &str, children: Vec<TreeNode>) -> TreeNode {
    TreeNode { name: name.to_string(), node_type: NodeType::Directory, children }
}

#[test]
fn round_trip_svg_counts() {
    let tree = dir("root", vec![dir("src", vec![file("main")])]);
    let svg = generate_svg_map(&tree);
    assert_eq!(svg.matches("<g id='").count(), 3);
    assert_eq!(svg.matches("<path d='M").count(), 2);
}

#[test]
fn round_trip_model_counts() {
    let tree = dir("root", vec![dir("src", vec![file("main")])]);
    let xml = generate_mxgraphmodel_xml(&tree);
    assert!(xml.contains("<mxCell id=\"0\" />"));
    assert!(xml.contains("<mxCell id=\"1\" parent=\"0\" />"));
    assert!(xml.contains("<mxCell id=\"2\""));
    assert!(xml.contains("<mxCell id=\"3\""));
    assert!(xml.contains("<mxCell id=\"4\""));
    assert!(!xml.contains("<mxCell id=\"5\""));
    assert_eq!(xml.matches("vertex=\"1\"").count(), 3);
    assert_eq!(xml.matches("edge=\"1\"").count(), 2);
}

#[test]
fn nodes_precede_edges_in_model() {
    let tree = dir("root", vec![file("a"), file("b"), file("c")]);
    let xml = generate_mxgraphmodel_xml(&tree);
    let last_vertex = xml.rfind("vertex=\"1\"").unwrap();
    let first_edge = xml.find("edge=\"1\"").unwrap();
    assert!(last_vertex < first_edge);
}

#[test]
fn escaping_in_model_markup() {
    let tree = dir("root", vec![file("a&b<c>d")]);
    let xml = generate_mxgraphmodel_xml(&tree);
    assert!(xml.contains("value=\"a&amp;b&lt;c&gt;d\""));
    assert!(!xml.contains("value=\"a&b<c>d\""));
}

#[test]
fn edge_order_follows_child_order() {
    let tree = dir("root", vec![file("a"), file("b"), file("c")]);
    let mut layout = NodeLayout::new();
    let mut y = 0i32;
    let mut edges: Vec<(u32, u32)> = Vec::new();
    let root_id = mapper::drawio_layout::layout_tree(&tree, 0, &mut y, &mut layout, 1, &mut edges);
    assert_eq!(root_id, 2);
    assert_eq!(edges, vec![(2, 3), (2, 4), (2, 5)]);
}

#[test]
fn grid_positions() {
    let tree = dir("root", vec![dir("src", vec![file("main")]), file("b")]);
    let mut layout = NodeLayout::new();
    let mut y = 0i32;
    let mut edges: Vec<(u32, u32)> = Vec::new();
    let _ = mapper::drawio_layout::layout_tree(&tree, 0, &mut y, &mut layout, 1, &mut edges);
    // ids in pre-order: root 2, src 3, main 4, b 5
    assert_eq!(layout.positions[0], (0, 0));
    assert_eq!(layout.positions[1], (240, 0));
    assert_eq!(layout.positions[2], (480, 0));
    assert_eq!(layout.positions[3], (240, 90));
    assert_eq!(layout.next_id, 6);
    assert_eq!(edges, vec![(3, 4), (2, 3), (2, 5)]);
}

#[test]
fn centering_against_three_children() {
    // Three leaf children: combined span 32 + 20 + 32 + 20 + 32 = 136 > 32,
    // so the parent's y is 32 + (136 - 32) / 2 = 84.
    let tree = dir("d", vec![file("a"), file("b"), file("c")]);
    let layout = layout_tree(&tree, 32, 32, 40, 20, 10, 18, 80, 32);
    assert_eq!(layout.height, 136);
    assert_eq!(layout.y, 84);
    assert_eq!(layout.x, 32);
    assert_eq!(layout.children[0].y, 32);
    assert_eq!(layout.children[1].y, 84);
    assert_eq!(layout.children[2].y, 136);
    // name "d": 1 * 10 + 2 * 18 = 46 < 80, so the minimum width holds
    assert_eq!(layout.width, 80);
    assert_eq!(layout.children[0].x, 32 + 80 + 40);
}

#[test]
fn parent_keeps_y_when_children_fit() {
    let tree = dir("d", vec![file("a")]);
    let layout = layout_tree(&tree, 32, 32, 40, 20, 10, 18, 80, 32);
    assert_eq!(layout.height, 32);
    assert_eq!(layout.y, 32);
}

#[test]
fn empty_tree_layout_and_outputs() {
    let tree = dir("root", vec![]);
    let layout = layout_tree(&tree, 32, 32, 40, 20, 10, 18, 80, 32);
    assert_eq!(layout.height, 32);
    assert_eq!(layout.children.len(), 0);
    let svg = generate_svg_map(&tree);
    assert_eq!(svg.matches("<path d='M").count(), 0);
    assert_eq!(svg.matches("<g id='").count(), 1);
    let xml = generate_mxgraphmodel_xml(&tree);
    assert_eq!(xml.matches("edge=\"1\"").count(), 0);
    assert_eq!(xml.matches("vertex=\"1\"").count(), 1);
}

#[test]
fn width_monotone_in_label_length() {
    let mut last = 0;
    for n in 1..30usize {
        let name: String = "a".repeat(n);
        let tree = file(&name);
        let layout = layout_tree(&tree, 0, 0, 40, 20, 10, 18, 80, 32);
        assert!(layout.width >= last);
        last = layout.width;
    }
    // exact values: 4 chars stay at the minimum, 5 chars exceed it
    let l4 = layout_tree(&file("aaaa"), 0, 0, 40, 20, 10, 18, 80, 32);
    assert_eq!(l4.width, 80);
    let l5 = layout_tree(&file("aaaaa"), 0, 0, 40, 20, 10, 18, 80, 32);
    assert_eq!(l5.width, 86);
}

#[test]
fn multibyte_labels_count_characters() {
    // four characters, more bytes than characters
    let tree = file("\u{00e9}\u{00e9}\u{00e9}\u{00e9}\u{00e9}");
    let layout = layout_tree(&tree, 0, 0, 40, 20, 10, 18, 80, 32);
    assert_eq!(layout.width, 86);
}

#[test]
fn bbox_and_canvas_size() {
    let tree = dir("root", vec![]);
    let layout = layout_tree(&tree, 32, 32, 40, 20, 10, 18, 80, 32);
    let mut max = (0i32, 0i32);
    layout_bbox(&layout, &mut max);
    assert_eq!(max, (32 + 80, 32 + 32));
    let svg = generate_svg_map(&tree);
    assert!(svg.contains("width='144' height='96'"));
}

#[test]
fn bbox_contains_all_boxes() {
    let tree = dir("root", vec![dir("src", vec![file("main"), file("other")]), file("b")]);
    let layout = layout_tree(&tree, 32, 32, 40, 20, 10, 18, 80, 32);
    let mut max = (0i32, 0i32);
    layout_bbox(&layout, &mut max);
    fn walk(l: &mapper::svg_map::LayoutNode, max: (i32, i32)) {
        assert!(l.x >= 0 && l.y >= 0);
        assert!(l.x + l.width <= max.0);
        assert!(l.y + 32 <= max.1);
        for c in &l.children {
            walk(c, max);
        }
    }
    walk(&layout, max);
}

#[test]
fn determinism_byte_identical() {
    let mk = || dir("root", vec![dir("src", vec![file("main")]), file("readme")]);
    let t1 = mk();
    let t2 = mk();
    assert_eq!(generate_svg_map(&t1), generate_svg_map(&t2));
    assert_eq!(generate_mxgraphmodel_xml(&t1), generate_mxgraphmodel_xml(&t2));
    assert_eq!(generate_drawio_file_xml(&t1), generate_drawio_file_xml(&t2));
    assert_eq!(generate_svg_map(&t1), generate_svg_map(&t1));
}

#[test]
fn svg_content_structure() {
    let tree = dir("root", vec![file("a")]);
    let layout = layout_tree(&tree, 32, 32, 40, 20, 10, 18, 80, 32);
    let svg = generate_svg_content(&layout, 500, 400);
    assert!(svg.starts_with("<svg xmlns='http://www.w3.org/2000/svg' width='500' height='400'"));
    assert!(svg.ends_with("</svg>"));
    assert!(svg.contains("<defs>"));
    assert!(svg.contains("<script>"));
    assert!(svg.contains("<rect width='100%' height='100%' fill='#14151a'/>"));
    // directory color on the root, file color on the child
    assert!(svg.contains("fill='#00fff7'"));
    assert!(svg.contains("fill='#39ff14'"));
    assert!(svg.contains("<title>File: a</title>"));
}

#[test]
fn file_xml_wrapper() {
    let tree = dir("root", vec![]);
    let xml = generate_drawio_file_xml(&tree);
    assert!(xml.starts_with("<?xml version=\"1.0\" encoding=\"UTF-8\"?>\n<mxfile host=\"app.diagrams.net\">"));
    assert!(xml.contains("<diagram name=\"Project Map\">"));
    assert!(xml.ends_with("</diagram>\n</mxfile>"));
    let model = generate_mxgraphmodel_xml(&tree);
    assert!(xml.contains(&model));
}

#[test]
fn node_layout_new_starts_at_two() {
    let l = NodeLayout::new();
    assert_eq!(l.next_id, 2);
    assert!(l.positions.is_empty());
    assert!(l.id_to_node.is_empty());
}

#[test]
fn compress_and_encode_round_trip() {
    let tree = dir("root", vec![dir("src", vec![file("main")])]);
    let xml = generate_mxgraphmodel_xml(&tree);
    let encoded = compress_and_encode(&xml).unwrap();
    assert_ne!(encoded, xml);
    // invert the pipeline: percent-decode, base64-decode, inflate
    let b64 = urlencoding::decode(&encoded).unwrap().into_owned();
    let compressed = base64::engine::general_purpose::STANDARD.decode(b64.as_bytes()).unwrap();
    let mut decoder = flate2::read::DeflateDecoder::new(compressed.as_slice());
    let mut restored = String::new();
    decoder.read_to_string(&mut restored).unwrap();
    assert_eq!(restored, xml);
}

#[test]
fn compress_is_deterministic() {
    let a = compress_and_encode("<mxGraphModel></mxGraphModel>").unwrap();
    let b = compress_and_encode("<mxGraphModel></mxGraphModel>").unwrap();
    assert_eq!(a, b);
}

#[test]
fn compress_always_succeeds() {
    assert!(compress_and_encode("").is_ok());
    assert!(compress_and_encode("x").is_ok());
    let big = "a".repeat(100_000);
    assert!(compress_and_encode(&big).is_ok());
}

#[test]
fn url_has_marker_and_payload() {
    let url = drawio_url("abc%3D");
    assert_eq!(url, "https://app.diagrams.net/?splash=0&libs=general;uml#Rabc%3D");
}

#[test]
fn exclusion_rules() {
    assert!(should_exclude("target", false));
    assert!(should_exclude("gen", false));
    assert!(should_exclude(".git", false));
    assert!(!should_exclude("target", true));
    assert!(!should_exclude(".", true));
    assert!(!should_exclude("src", false));
    assert!(!should_exclude("generated", false));
}

#[test]
fn child_ordering() {
    assert!(node_precedes(&dir("z", vec![]), &file("a")));
    assert!(!node_precedes(&file("a"), &dir("z", vec![])));
    assert!(node_precedes(&file("a"), &file("b")));
    assert!(!node_precedes(&file("b"), &file("a")));
    assert!(!node_precedes(&file("a"), &file("a")));
    assert!(str_lt("abc", "abd"));
    assert!(str_lt("ab", "abc"));
    assert!(!str_lt("abc", "abc"));
    assert!(!str_lt("b", "abc"));
}

#[test]
fn mapper_error_from_io() {
    let e = std::io::Error::new(std::io::ErrorKind::NotFound, "gone");
    let m = MapperError::from(e);
    assert!(matches!(m, MapperError::IoError(_)));
    let p = MapperError::InvalidPath("nowhere".to_string());
    assert!(matches!(p, MapperError::InvalidPath(_)));
}

#[test]
fn simple_emitter_cells_and_edges() {
    let tree = dir("r&d", vec![file("a"), dir("b", vec![file("c")])]);
    let mut id = 2u32;
    let mut xml = String::new();
    let mut edges: Vec<(u32, u32)> = Vec::new();
    mapper::drawio_xml::add_node_xml_with_edges(&tree, 1, &mut id, &mut xml, &mut edges);
    assert_eq!(id, 2 + 4);
    // pre-order ids: r&d 2, a 3, b 4, c 5; edge to a child precedes its subtree
    assert_eq!(edges, vec![(2, 3), (2, 4), (4, 5)]);
    assert!(xml.contains("<mxCell id=\"2\" value=\"r&amp;d\""));
    assert!(xml.contains("parent=\"1\""));
    assert!(xml.contains("<mxCell id=\"3\" value=\"a\""));
    assert!(xml.contains("<mxCell id=\"5\" value=\"c\""));
    assert!(xml.contains("parent=\"4\""));
    assert!(xml.contains("x=\"100\" y=\"100\""));
    assert_eq!(xml.matches("<mxCell").count(), 4);
}

#[test]
fn sorting_directories_first_then_alphabetical() {
    let nodes = vec![
        file("zeta"),
        dir("beta", vec![]),
        file("alpha"),
        dir("alpha", vec![]),
        file("beta"),
    ];
    let sorted = sort_children(nodes);
    let view: Vec<(String, NodeType)> =
        sorted.iter().map(|n| (n.name.clone(), n.node_type)).collect();
    assert_eq!(
        view,
        vec![
            ("alpha".to_string(), NodeType::Directory),
            ("beta".to_string(), NodeType::Directory),
            ("alpha".to_string(), NodeType::File),
            ("beta".to_string(), NodeType::File),
            ("zeta".to_string(), NodeType::File),
        ]
    );
}

#[test]
fn sorting_keeps_all_nodes() {
    let nodes = vec![file("b"), file("a"), file("b"), file("a")];
    let sorted = sort_children(nodes);
    let names: Vec<&str> = sorted.iter().map(|n| n.name.as_str()).collect();
    assert_eq!(names, vec!["a", "a", "b", "b"]);
}
