//! Renders a rooted tree of labeled directory/file nodes as two markup
//! documents: an interactive vector graphic and a node/edge diagram for a
//! third-party diagramming tool, the latter also embeddable in a URL through
//! a compression/encoding pipeline.

use vstd::prelude::*;

pub mod drawio_compress;
pub mod drawio_launcher;
pub mod drawio_layout;
pub mod drawio_xml;
pub mod laws;
pub mod svg_map;
pub mod text;
pub mod tree_build;

verus! {

broadcast use vstd::std_specs::vec::axiom_vec_index_decreases;

/// Relies on std's `std::io::Error` as an opaque carrier of an I/O failure;
/// nothing of its contents is assumed.
#[verifier::external_type_specification]
#[verifier::external_body]
pub struct ExIoError(std::io::Error);

/// Error type for the mapper application: an I/O failure, or a designated
/// root path that does not resolve to a usable tree.
#[derive(Debug)]
pub enum MapperError {
    IoError(std::io::Error),
    InvalidPath(String),
}

impl From<std::io::Error> for MapperError {
    /// Wraps an I/O failure.
    fn from(err: std::io::Error) -> (r: Self) {
        MapperError::IoError(err)
    }
}

impl vstd::std_specs::convert::FromSpecImpl<std::io::Error> for MapperError {
    open spec fn obeys_from_spec() -> bool {
        true
    }

    open spec fn from_spec(err: std::io::Error) -> Self {
        MapperError::IoError(err)
    }
}

/// A node kind: interior (directory) or leaf (file).
#[derive(Debug, Clone, Copy, PartialEq, Eq, Structural)]
pub enum NodeType {
    /// Represents a directory node
    Directory,
    /// Represents a file node
    File,
}

/// A node in the directory tree structure.
#[derive(Debug)]
pub struct TreeNode {
    /// Name of the file or directory
    pub name: String,
    /// Type of the node (File or Directory)
    pub node_type: NodeType,
    /// Child nodes if this is a directory
    pub children: Vec<TreeNode>,
}

/// Mathematical model of a tree: a label, a kind, and an ordered
/// sequence of subtrees.
pub struct Tree {
    pub name: Seq<char>,
    pub kind: NodeType,
    pub children: Seq<Tree>,
}

/// The model of a tree node: its label as a sequence of characters, its
/// kind, and the models of its children in order.
pub open spec fn tree_view(node: TreeNode) -> Tree
    decreases node,
{
    Tree { name: node.name@, kind: node.node_type, children: forest_view(node.children@) }
}

/// The models of a sequence of tree nodes, in order.
pub open spec fn forest_view(nodes: Seq<TreeNode>) -> Seq<Tree>
    decreases nodes,
{
    if nodes.len() == 0 {
        Seq::empty()
    } else {
        seq![tree_view(nodes[0])] + forest_view(nodes.drop_first())
    }
}

/// Indexing into the model of a forest gives the model of the node there.
pub broadcast proof fn lemma_forest_view_index(nodes: Seq<TreeNode>, i: int)
    ensures
        forest_view(nodes).len() == nodes.len(),
        0 <= i < nodes.len() ==> #[trigger] forest_view(nodes)[i] == tree_view(nodes[i]),
    decreases nodes.len(),
{
    if nodes.len() > 0 {
        lemma_forest_view_index(nodes.drop_first(), i - 1);
    }
}

impl View for TreeNode {
    type V = Tree;

    open spec fn view(&self) -> Tree {
        tree_view(*self)
    }
}

/// Number of nodes in a tree (at least 1: the root itself).
pub open spec fn tree_size(t: Tree) -> nat
    decreases t,
{
    1 + forest_size(t.children)
}

/// Combined node count of a sequence of trees.
pub open spec fn forest_size(ts: Seq<Tree>) -> nat
    decreases ts,
{
    if ts.len() == 0 {
        0
    } else {
        tree_size(ts[0]) + forest_size(ts.drop_first())
    }
}

} // verus!
