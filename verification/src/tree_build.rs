//! The decisions of the tree-construction collaborator: which directory
//! names are filtered out, and how a directory's children are ordered
//! (directories before files, alphabetically within each kind). Reading the
//! filesystem itself stays with the caller.

use crate::{Tree, TreeNode};
use vstd::multiset::Multiset;
use vstd::prelude::*;

verus! {

/// A directory of this name is left out of the tree, except at the root:
/// the fixed build-output and generated-code names, and every name that
/// starts with a dot.
pub open spec fn excluded_name(name: Seq<char>) -> bool {
    ||| name == "target"@
    ||| name == "gen"@
    ||| (name.len() > 0 && name[0] == '.')
}

/// Whether two strings are equal character for character.
fn str_eq(a: &str, b: &str) -> (r: bool)
    ensures
        r == (a@ == b@),
{
    let na = a.unicode_len();
    let nb = b.unicode_len();
    if na != nb {
        proof {
            assert(a@ != b@);
        }
        return false;
    }
    let mut i: usize = 0;
    while i < na
        invariant
            i <= na,
            na == a@.len(),
            na == b@.len(),
            forall|j: int| 0 <= j < i ==> a@[j] == b@[j],
        decreases na - i,
    {
        if a.get_char(i) != b.get_char(i) {
            return false;
        }
        i = i + 1;
    }
    proof {
        assert(a@ =~= b@);
    }
    true
}

/// Decides whether a directory of this name is filtered out of the tree;
/// the root never is.
pub fn should_exclude(name: &str, is_root: bool) -> (r: bool)
    ensures
        r == (!is_root && excluded_name(name@)),
{
    if is_root {
        return false;
    }
    if str_eq(name, "target") {
        return true;
    }
    if str_eq(name, "gen") {
        return true;
    }
    if name.unicode_len() > 0 {
        if name.get_char(0) == '.' {
            return true;
        }
    }
    false
}

/// Strict lexicographic order on character sequences, by code point.
pub open spec fn lex_lt(a: Seq<char>, b: Seq<char>) -> bool
    decreases a.len(),
{
    if b.len() == 0 {
        false
    } else if a.len() == 0 {
        true
    } else if a[0] != b[0] {
        (a[0] as u32) < (b[0] as u32)
    } else {
        lex_lt(a.drop_first(), b.drop_first())
    }
}

/// Dropping an equal first character does not change the order.
proof fn lemma_lex_lt_skip(a: Seq<char>, b: Seq<char>, i: int)
    requires
        0 <= i,
        i < a.len(),
        i < b.len(),
        a[i] == b[i],
    ensures
        lex_lt(a.skip(i), b.skip(i)) == lex_lt(a.skip(i + 1), b.skip(i + 1)),
{
    assert(a.skip(i)[0] == a[i]);
    assert(b.skip(i)[0] == b[i]);
    assert(a.skip(i).drop_first() =~= a.skip(i + 1));
    assert(b.skip(i).drop_first() =~= b.skip(i + 1));
}

/// Whether `a` comes strictly before `b` lexicographically, by code point.
pub fn str_lt(a: &str, b: &str) -> (r: bool)
    ensures
        r == lex_lt(a@, b@),
{
    let na = a.unicode_len();
    let nb = b.unicode_len();
    let mut i: usize = 0;
    proof {
        assert(a@.skip(0) =~= a@);
        assert(b@.skip(0) =~= b@);
    }
    while i < na && i < nb
        invariant
            i <= na,
            i <= nb,
            na == a@.len(),
            nb == b@.len(),
            lex_lt(a@, b@) == lex_lt(a@.skip(i as int), b@.skip(i as int)),
        decreases na - i,
    {
        let ca = a.get_char(i);
        let cb = b.get_char(i);
        if ca != cb {
            proof {
                assert(a@.skip(i as int)[0] == a@[i as int]);
                assert(b@.skip(i as int)[0] == b@[i as int]);
            }
            return (ca as u32) < (cb as u32);
        }
        proof {
            lemma_lex_lt_skip(a@, b@, i as int);
        }
        i = i + 1;
    }
    proof {
        if i >= nb {
            assert(b@.skip(i as int).len() == 0);
        } else {
            assert(a@.skip(i as int).len() == 0);
            assert(b@.skip(i as int).len() > 0);
        }
    }
    i < nb
}

/// The order the tree builder gives a directory's children: every
/// Directory-kind entry before every File-kind entry, and alphabetically
/// within each kind.
pub open spec fn node_lt(a: Tree, b: Tree) -> bool {
    ||| (a.kind is Directory && b.kind is File)
    ||| (a.kind == b.kind && lex_lt(a.name, b.name))
}

/// Decides whether `a` comes strictly before `b` in a directory's child
/// order.
pub fn node_precedes(a: &TreeNode, b: &TreeNode) -> (r: bool)
    ensures
        r == node_lt(a@, b@),
{
    match (a.node_type, b.node_type) {
        (crate::NodeType::Directory, crate::NodeType::File) => true,
        (crate::NodeType::File, crate::NodeType::Directory) => false,
        _ => str_lt(a.name.as_str(), b.name.as_str()),
    }
}


/// Asymmetry of the lexicographic order.
proof fn lemma_lex_lt_asym(a: Seq<char>, b: Seq<char>)
    requires
        lex_lt(a, b),
    ensures
        !lex_lt(b, a),
    decreases a.len(),
{
    if b.len() == 0 {
    } else if a.len() == 0 {
    } else if a[0] != b[0] {
    } else {
        lemma_lex_lt_asym(a.drop_first(), b.drop_first());
    }
}

/// Asymmetry of the child order.
proof fn lemma_node_lt_asym(a: Tree, b: Tree)
    requires
        node_lt(a, b),
    ensures
        !node_lt(b, a),
{
    if a.kind == b.kind && lex_lt(a.name, b.name) {
        lemma_lex_lt_asym(a.name, b.name);
    }
}

/// No element is followed by one that comes strictly before it in the child
/// order.
pub open spec fn sorted_children(s: Seq<TreeNode>) -> bool {
    forall|i: int|
        0 <= i < s.len() - 1 ==> !node_lt(
            crate::tree_view(#[trigger] s[i + 1]),
            crate::tree_view(s[i]),
        )
}

/// Sorts a directory's children into the tree builder's order: directories
/// before files, alphabetically within each kind. The result holds exactly
/// the given nodes.
pub fn sort_children(nodes: Vec<TreeNode>) -> (r: Vec<TreeNode>)
    ensures
        sorted_children(r@),
        r@.to_multiset() == nodes@.to_multiset(),
{
    broadcast use vstd::seq_lib::group_to_multiset_ensures;

    let mut src = nodes;
    let mut result: Vec<TreeNode> = Vec::new();
    proof {
        assert(result@.to_multiset().add(src@.to_multiset()) =~= nodes@.to_multiset());
    }
    while src.len() > 0
        invariant
            sorted_children(result@),
            result@.to_multiset().add(src@.to_multiset()) == nodes@.to_multiset(),
        decreases src.len(),
    {
        let ghost src_before = src@;
        let x = match src.pop() {
            Some(x) => x,
            None => {
                return result;
            },
        };
        proof {
            assert(src_before =~= src@.push(x));
            vstd::seq_lib::to_multiset_build(src@, x);
            assert(src_before.to_multiset() == src@.push(x).to_multiset());
        }
        let mut j: usize = 0;
        while j < result.len() && !node_precedes(&x, &result[j])
            invariant
                j <= result.len(),
                forall|i: int|
                    0 <= i < j ==> !node_lt(crate::tree_view(x), crate::tree_view(
                        #[trigger] result@[i],
                    )),
            decreases result.len() - j,
        {
            j = j + 1;
        }
        let ghost before = result@;
        let ghost stopped_lt = j < result@.len() && node_lt(
            crate::tree_view(x),
            crate::tree_view(result@[j as int]),
        );
        result.insert(j, x);
        proof {
            let after = result@;
            assert(after == before.insert(j as int, x));
            vstd::seq_lib::to_multiset_insert(before, j as int, x);
            assert(after.to_multiset() == before.to_multiset().insert(x));
            before.insert_ensures(j as int, x);
            assert(after.to_multiset().add(src@.to_multiset()) =~= nodes@.to_multiset());
            if stopped_lt {
                lemma_node_lt_asym(crate::tree_view(x), crate::tree_view(before[j as int]));
            }
            assert forall|i: int| 0 <= i < after.len() - 1 implies !node_lt(
                crate::tree_view(#[trigger] after[i + 1]),
                crate::tree_view(after[i]),
            ) by {
                if i + 1 < j {
                    assert(after[i] == before[i] && after[i + 1] == before[i + 1]);
                } else if i + 1 == j {
                    assert(after[i] == before[i] && after[i + 1] == x);
                } else if i == j {
                    assert(after[i] == x && after[i + 1] == before[i]);
                } else {
                    assert(after[i] == before[i - 1] && after[i + 1] == before[i]);
                }
            }
        }
    }
    proof {
        vstd::seq_lib::to_multiset_len(src@);
        vstd::multiset::lemma_multiset_empty_len(src@.to_multiset());
        assert(src@.to_multiset() =~= Multiset::<TreeNode>::empty());
        assert(result@.to_multiset().add(src@.to_multiset()) =~= result@.to_multiset());
    }
    result
}

} // verus!
