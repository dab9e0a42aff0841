//! The tree type, its mathematical model, constructors and metrics.
use crate::hashutils::{hash_leaf, hash_nodes, leaf_hash, node_hash, HashAlgorithm, MAX_MESSAGE_LEN};
use crate::iter::{LeavesIntoIterator, LeavesIterator};
use vstd::prelude::*;
use vstd::utf8::encode_utf8;

verus! {

/// What a leaf holds.
pub type TreeLeafData = String;

/// Binary tree whose leaves hold a stand-alone value and whose every node
/// carries a digest.
#[derive(Debug, PartialEq)]
pub enum Tree {
    Empty { hash: Vec<u8> },
    Leaf { hash: Vec<u8>, value: TreeLeafData },
    Node { hash: Vec<u8>, left: Box<Tree>, right: Box<Tree> },
}

/// A tree as a mathematical value: digests as byte sequences, values as
/// character sequences.
pub enum TreeModel {
    Empty { hash: Seq<u8> },
    Leaf { hash: Seq<u8>, value: Seq<char> },
    Node { hash: Seq<u8>, left: Box<TreeModel>, right: Box<TreeModel> },
}

impl TreeModel {
    /// The digest stored at the root.
    pub open spec fn hash(self) -> Seq<u8> {
        match self {
            TreeModel::Empty { hash } => hash,
            TreeModel::Leaf { hash, .. } => hash,
            TreeModel::Node { hash, .. } => hash,
        }
    }

    /// 0 for a leaf or an empty tree, else one more than the higher child.
    pub open spec fn height(self) -> nat
        decreases self,
    {
        match self {
            TreeModel::Node { left, right, .. } => {
                let (l, r) = (left.height(), right.height());
                1 + if l >= r { l } else { r }
            },
            _ => 0,
        }
    }

    /// The number of leaves.
    pub open spec fn count(self) -> nat
        decreases self,
    {
        match self {
            TreeModel::Empty { .. } => 0,
            TreeModel::Leaf { .. } => 1,
            TreeModel::Node { left, right, .. } => left.count() + right.count(),
        }
    }

    /// The leaf values from left to right.
    pub open spec fn leaves(self) -> Seq<Seq<char>>
        decreases self,
    {
        match self {
            TreeModel::Empty { .. } => Seq::empty(),
            TreeModel::Leaf { value, .. } => seq![value],
            TreeModel::Node { left, right, .. } => left.leaves() + right.leaves(),
        }
    }

    /// No empty tree occurs anywhere inside.
    pub open spec fn no_empty(self) -> bool
        decreases self,
    {
        match self {
            TreeModel::Empty { .. } => false,
            TreeModel::Leaf { .. } => true,
            TreeModel::Node { left, right, .. } => left.no_empty() && right.no_empty(),
        }
    }

    /// Every internal node's digest combines its children's digests.
    pub open spec fn consistent(self, alg: HashAlgorithm) -> bool
        decreases self,
    {
        match self {
            TreeModel::Node { hash, left, right } => hash == node_hash(alg, left.hash(), right.hash())
                && left.consistent(alg) && right.consistent(alg),
            _ => true,
        }
    }
}

impl Tree {
    /// The model of this tree.
    pub open spec fn model(self) -> TreeModel
        decreases self,
    {
        match self {
            Tree::Empty { hash } => TreeModel::Empty { hash: hash@ },
            Tree::Leaf { hash, value } => TreeModel::Leaf { hash: hash@, value: value@ },
            Tree::Node { hash, left, right } => TreeModel::Node {
                hash: hash@,
                left: Box::new(left.model()),
                right: Box::new(right.model()),
            },
        }
    }
}

impl View for Tree {
    type V = TreeModel;

    open spec fn view(&self) -> TreeModel {
        self.model()
    }
}

impl Tree {
    /// Create an empty tree with the given digest, taken as it is.
    pub fn empty(hash: Vec<u8>) -> (r: Self)
        ensures
            r@ == (TreeModel::Empty { hash: hash@ }),
    {
        Tree::Empty { hash }
    }

    /// Create a leaf with the given digest and value, both taken as they are.
    pub fn new(hash: Vec<u8>, value: TreeLeafData) -> (r: Self)
        ensures
            r@ == (TreeModel::Leaf { hash: hash@, value: value@ }),
    {
        Tree::Leaf { hash, value }
    }

    /// Create a leaf whose digest is computed from its value.
    pub fn new_leaf(algo: HashAlgorithm, value: TreeLeafData) -> (r: Tree)
        requires
            encode_utf8(value@).len() + 1 < MAX_MESSAGE_LEN,
        ensures
            r@ == (TreeModel::Leaf { hash: leaf_hash(algo, value@), value: value@ }),
            r@.consistent(algo),
    {
        let hash = hash_leaf(algo, &value);
        Tree::new(hash, value)
    }

    /// Join two subtrees under a node whose digest combines theirs.
    pub fn new_node(algo: HashAlgorithm, left: Tree, right: Tree) -> (r: Tree)
        requires
            left@.hash().len() + right@.hash().len() + 1 < MAX_MESSAGE_LEN,
        ensures
            r@ == (TreeModel::Node {
                hash: node_hash(algo, left@.hash(), right@.hash()),
                left: Box::new(left@),
                right: Box::new(right@),
            }),
            r@.consistent(algo) == (left@.consistent(algo) && right@.consistent(algo)),
    {
        let hash = hash_nodes(algo, left.hash(), right.hash());
        Tree::Node { hash, left: Box::new(left), right: Box::new(right) }
    }

    /// The digest stored at the root.
    pub fn hash(&self) -> (r: &Vec<u8>)
        ensures
            r@ == self@.hash(),
    {
        match self {
            Tree::Empty { hash } => hash,
            Tree::Leaf { hash, .. } => hash,
            Tree::Node { hash, .. } => hash,
        }
    }

    /// A borrowing traversal of the leaves from left to right.
    pub fn iter(&self) -> (r: LeavesIterator<'_>)
        ensures
            r@ == crate::iter::descend(self@, Seq::empty()),
    {
        LeavesIterator::new(self)
    }

    /// A consuming traversal of the leaves from left to right.
    pub fn into_iter(self) -> (r: LeavesIntoIterator)
        ensures
            r@ == crate::iter::descend(self@, Seq::empty()),
    {
        LeavesIntoIterator::new(self)
    }

    /// 0 for a leaf or an empty tree, else one more than the higher child.
    pub fn get_height(&self) -> (r: usize)
        requires
            self@.height() <= usize::MAX,
        ensures
            r == self@.height(),
        decreases self,
    {
        match self {
            Tree::Empty { .. } => 0,
            Tree::Node { left, right, .. } => {
                let l = left.get_height();
                let r = right.get_height();
                1 + if l >= r { l } else { r }
            },
            Tree::Leaf { .. } => 0,
        }
    }

    /// The number of leaves.
    pub fn get_count(&self) -> (r: usize)
        requires
            self@.count() <= usize::MAX,
        ensures
            r == self@.count(),
        decreases self,
    {
        match self {
            Tree::Empty { .. } => 0,
            Tree::Node { left, right, .. } => left.get_count() + right.get_count(),
            Tree::Leaf { .. } => 1,
        }
    }
}

/// A node built by the constructors combines its children's digests.
pub proof fn lemma_node_hash_consistent(t: TreeModel, alg: HashAlgorithm)
    requires
        t.consistent(alg),
        t is Node,
    ensures
        t->Node_hash == node_hash(alg, t->Node_left.hash(), t->Node_right.hash()),
{
}

/// The height is 0 exactly for the empty tree and for a single leaf.
pub proof fn lemma_height_zero(t: TreeModel)
    ensures
        (t.height() == 0) == (t is Empty || t is Leaf),
{
}

/// The number of leaves is the length of the left-to-right leaf sequence.
pub proof fn lemma_count_is_leaves_len(t: TreeModel)
    ensures
        t.count() == t.leaves().len(),
    decreases t,
{
    if let TreeModel::Node { left, right, .. } = t {
        lemma_count_is_leaves_len(*left);
        lemma_count_is_leaves_len(*right);
    }
}

} // verus!
