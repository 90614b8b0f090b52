//! Copies of directory trees and stored trees.

use vstd::prelude::*;

use crate::internals::objects::tree::{FileTree, FileTreeNode, GitrsTree, TreeNode};

verus! {

broadcast use vstd::std_specs::vec::axiom_vec_index_decreases;

/// Whether two directory trees hold the same names, contents and metadata,
/// node for node.
pub open spec fn same_tree(a: GitrsTree, b: GitrsTree) -> bool
    decreases a,
{
    &&& a.dir_name == b.dir_name
    &&& a.content@.len() == b.content@.len()
    &&& forall|i: int|
        0 <= i < a.content@.len() ==> same_node(#[trigger] a.content@[i], b.content@[i])
}

/// Whether two tree nodes are the same file, or the same sub-directory.
pub open spec fn same_node(a: TreeNode, b: TreeNode) -> bool
    decreases a,
{
    match a {
        TreeNode::File { .. } => b == a,
        TreeNode::Subdir { name, content } => match b {
            TreeNode::Subdir { name: name_b, content: content_b } => name == name_b && same_tree(
                content,
                content_b,
            ),
            _ => false,
        },
    }
}

/// Copies a directory tree.
fn clone_tree(t: &GitrsTree) -> (r: GitrsTree)
    ensures
        same_tree(*t, r),
    decreases t,
{
    let mut content: Vec<TreeNode> = Vec::new();
    let mut i: usize = 0;
    while i < t.content.len()
        invariant
            0 <= i <= t.content@.len(),
            content@.len() == i,
            forall|j: int| 0 <= j < i ==> same_node(#[trigger] t.content@[j], content@[j]),
        decreases t.content@.len() - i,
    {
        let n = clone_node(&t.content[i]);
        content.push(n);
        i += 1;
    }
    GitrsTree { dir_name: t.dir_name.clone(), content }
}

/// Copies a tree node.
fn clone_node(n: &TreeNode) -> (r: TreeNode)
    ensures
        same_node(*n, r),
    decreases n,
{
    match n {
        TreeNode::File { name, content, metadata } => TreeNode::File {
            name: name.clone(),
            content: content.clone(),
            metadata: *metadata,
        },
        TreeNode::Subdir { name, content } => TreeNode::Subdir {
            name: name.clone(),
            content: clone_tree(content),
        },
    }
}

impl Clone for GitrsTree {
    fn clone(&self) -> (r: Self)
        ensures
            same_tree(*self, r),
    {
        clone_tree(self)
    }
}

impl Clone for TreeNode {
    fn clone(&self) -> (r: Self)
        ensures
            same_node(*self, r),
    {
        clone_node(self)
    }
}

/// Whether two stored trees hold the same nodes, the same blob contents
/// and, child for child, the same children.
pub open spec fn same_file_tree(a: FileTree, b: FileTree) -> bool
    decreases a,
{
    &&& a.values@ == b.values@
    &&& match (a.blobs, b.blobs) {
        (None, None) => true,
        (Some(x), Some(y)) => x@ == y@,
        _ => false,
    }
    &&& match a.children {
        None => b.children is None,
        Some(ca) => match b.children {
            Some(cb) => ca@.len() == cb@.len() && forall|i: int|
                0 <= i < ca@.len() ==> same_file_tree(#[trigger] ca@[i], cb@[i]),
            None => false,
        },
    }
}

/// Copies the nodes of a stored tree.
fn clone_nodes(ns: &Vec<FileTreeNode>) -> (r: Vec<FileTreeNode>)
    ensures
        r@ == ns@,
{
    let mut out: Vec<FileTreeNode> = Vec::new();
    let mut i: usize = 0;
    while i < ns.len()
        invariant
            0 <= i <= ns@.len(),
            out@ == ns@.take(i as int),
        decreases ns@.len() - i,
    {
        let n = &ns[i];
        out.push(
            FileTreeNode {
                object_type: n.object_type,
                hash: n.hash,
                filepath: n.filepath.clone(),
                metadata: n.metadata,
            },
        );
        i += 1;
        assert(out@ =~= ns@.take(i as int));
    }
    assert(ns@.take(i as int) =~= ns@);
    out
}

/// Copies a stored tree with its children and blob contents.
fn clone_file_tree(t: &FileTree) -> (r: FileTree)
    ensures
        same_file_tree(*t, r),
    decreases t,
{
    let children = match &t.children {
        None => None,
        Some(cs) => {
            let mut out: Vec<FileTree> = Vec::new();
            let mut i: usize = 0;
            while i < cs.len()
                invariant
                    0 <= i <= cs@.len(),
                    t.children == Some(*cs),
                    out@.len() == i,
                    forall|j: int| 0 <= j < i ==> same_file_tree(#[trigger] cs@[j], out@[j]),
                decreases cs@.len() - i,
            {
                proof {
                    assert(decreases_to!(*t => t.children));
                    assert(decreases_to!(t.children => t.children->0));
                    assert(t.children->0 == *cs);
                    assert(decreases_to!(*cs => cs[i as int]));
                }
                let c = clone_file_tree(&cs[i]);
                out.push(c);
                i += 1;
            }
            Some(out)
        },
    };
    let blobs = match &t.blobs {
        None => None,
        Some(b) => Some(b.clone()),
    };
    FileTree { values: clone_nodes(&t.values), children, blobs }
}

impl Clone for FileTree {
    fn clone(&self) -> (r: Self)
        ensures
            same_file_tree(*self, r),
    {
        clone_file_tree(self)
    }
}

} // verus!
