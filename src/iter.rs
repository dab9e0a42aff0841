//! Left-to-right leaf traversal with an explicit stack of pending right subtrees.
use crate::tree::{Tree, TreeLeafData, TreeModel};
use vstd::prelude::*;

verus! {

/// The state reached by walking left from `t`: every right child met on the
/// way is pushed on `stack`, and the walk stops at a leaf (its value becomes
/// the current one) or at an empty tree (no current value).
pub open spec fn descend(t: TreeModel, stack: Seq<TreeModel>) -> (Option<Seq<char>>, Seq<TreeModel>)
    decreases t,
{
    match t {
        TreeModel::Empty { .. } => (None, stack),
        TreeModel::Leaf { value, .. } => (Some(value), stack),
        TreeModel::Node { left, right, .. } => descend(*left, stack.push(*right)),
    }
}

/// The state after one step: the current value is handed out, and the
/// most recently pushed subtree, if any, is walked.
pub open spec fn step(s: (Option<Seq<char>>, Seq<TreeModel>)) -> (Option<Seq<char>>, Seq<TreeModel>) {
    if s.1.len() == 0 {
        (None, s.1)
    } else {
        descend(s.1.last(), s.1.drop_last())
    }
}


/// The leaves of the pending subtrees, the most recently pushed one first.
pub open spec fn stack_leaves(stack: Seq<TreeModel>) -> Seq<Seq<char>>
    decreases stack.len(),
{
    if stack.len() == 0 {
        Seq::empty()
    } else {
        stack.last().leaves() + stack_leaves(stack.drop_last())
    }
}

/// The leaves that a traversal state still holds, in the order they come.
pub open spec fn remaining(s: (Option<Seq<char>>, Seq<TreeModel>)) -> Seq<Seq<char>> {
    match s.0 {
        Some(v) => seq![v] + stack_leaves(s.1),
        None => stack_leaves(s.1),
    }
}

/// What is left after the first element, if there is one.
pub open spec fn rest_of(s: Seq<Seq<char>>) -> Seq<Seq<char>> {
    if s.len() == 0 {
        s
    } else {
        s.drop_first()
    }
}

/// A state in which every pending subtree is free of empty trees, and no
/// current value means nothing is pending: stepping hands out the
/// remaining leaves one by one.
pub open spec fn traversable(s: (Option<Seq<char>>, Seq<TreeModel>)) -> bool {
    &&& forall|i: int| 0 <= i < s.1.len() ==> (#[trigger] s.1[i]).no_empty()
    &&& (s.0 is None ==> s.1.len() == 0)
}

/// The values handed out by at most `n` steps from `s`, up to the first
/// step that hands out nothing.
pub open spec fn produced(s: (Option<Seq<char>>, Seq<TreeModel>), n: nat) -> Seq<Seq<char>>
    decreases n,
{
    if n == 0 {
        Seq::empty()
    } else {
        match s.0 {
            Some(v) => seq![v] + produced(step(s), (n - 1) as nat),
            None => Seq::empty(),
        }
    }
}

proof fn lemma_stack_leaves_push(stack: Seq<TreeModel>, t: TreeModel)
    ensures
        stack_leaves(stack.push(t)) == t.leaves() + stack_leaves(stack),
{
    assert(stack.push(t).drop_last() =~= stack);
}

/// Walking left from a tree without empty subtrees lands on its first leaf
/// and keeps every leaf, in order, in the state.
proof fn lemma_descend(t: TreeModel, stack: Seq<TreeModel>)
    requires
        t.no_empty(),
    ensures
        descend(t, stack).0 is Some,
        remaining(descend(t, stack)) == t.leaves() + stack_leaves(stack),
        (forall|i: int| 0 <= i < stack.len() ==> (#[trigger] stack[i]).no_empty()) ==> traversable(
            descend(t, stack),
        ),
    decreases t,
{
    match t {
        TreeModel::Leaf { .. } => {},
        TreeModel::Node { left, right, .. } => {
            let s2 = stack.push(*right);
            lemma_descend(*left, s2);
            lemma_stack_leaves_push(stack, *right);
            assert(left.leaves() + (right.leaves() + stack_leaves(stack)) =~= t.leaves()
                + stack_leaves(stack));
            if forall|i: int| 0 <= i < stack.len() ==> (#[trigger] stack[i]).no_empty() {
                assert forall|i: int| 0 <= i < s2.len() implies (#[trigger] s2[i]).no_empty() by {
                    if i < stack.len() {
                        assert(s2[i] == stack[i]);
                    }
                }
            }
        },
        TreeModel::Empty { .. } => {},
    }
}

/// One step from a traversable state hands out the first remaining leaf
/// and keeps the rest.
pub proof fn lemma_step(s: (Option<Seq<char>>, Seq<TreeModel>))
    requires
        traversable(s),
    ensures
        traversable(step(s)),
        s.0 is None <==> remaining(s).len() == 0,
        s.0 is Some ==> s.0->0 == remaining(s)[0],
        remaining(step(s)) == rest_of(remaining(s)),
{
    if s.1.len() > 0 {
        let last = s.1.last();
        let rest = s.1.drop_last();
        assert(last == s.1[s.1.len() - 1]);
        assert forall|i: int| 0 <= i < rest.len() implies (#[trigger] rest[i]).no_empty() by {
            assert(rest[i] == s.1[i]);
        }
        lemma_descend(last, rest);
        assert(remaining(s).drop_first() =~= stack_leaves(s.1));
    } else {
    }
}

/// The ends that a left-to-right walk meets: `Some` value at a leaf, `None`
/// at an empty tree.
pub open spec fn items(t: TreeModel) -> Seq<Option<Seq<char>>>
    decreases t,
{
    match t {
        TreeModel::Empty { .. } => seq![None],
        TreeModel::Leaf { value, .. } => seq![Some(value)],
        TreeModel::Node { left, right, .. } => items(*left) + items(*right),
    }
}

/// The ends of the pending subtrees, the most recently pushed one first.
pub open spec fn stack_items(stack: Seq<TreeModel>) -> Seq<Option<Seq<char>>>
    decreases stack.len(),
{
    if stack.len() == 0 {
        Seq::empty()
    } else {
        items(stack.last()) + stack_items(stack.drop_last())
    }
}

/// The ends that a traversal state still holds, the current one first.
pub open spec fn state_items(s: (Option<Seq<char>>, Seq<TreeModel>)) -> Seq<Option<Seq<char>>> {
    seq![s.0] + stack_items(s.1)
}

/// The values of the `Some` entries, in order.
pub open spec fn somes(x: Seq<Option<Seq<char>>>) -> Seq<Seq<char>>
    decreases x.len(),
{
    if x.len() == 0 {
        Seq::empty()
    } else {
        match x[0] {
            Some(v) => seq![v] + somes(x.drop_first()),
            None => somes(x.drop_first()),
        }
    }
}

/// No `Some` entry comes after a `None` one.
pub open spec fn leaves_before_empties(x: Seq<Option<Seq<char>>>) -> bool {
    forall|i: int, j: int| 0 <= i < j < x.len() && (#[trigger] x[i]) is None ==> (#[trigger] x[j]) is None
}

proof fn lemma_somes_append(a: Seq<Option<Seq<char>>>, b: Seq<Option<Seq<char>>>)
    ensures
        somes(a + b) == somes(a) + somes(b),
    decreases a.len(),
{
    if a.len() == 0 {
        assert(a + b =~= b);
    } else {
        assert((a + b).drop_first() =~= a.drop_first() + b);
        lemma_somes_append(a.drop_first(), b);
        if let Some(v) = a[0] {
            assert(seq![v] + (somes(a.drop_first()) + somes(b)) =~= seq![v] + somes(a.drop_first())
                + somes(b));
        }
    }
}

proof fn lemma_somes_of_nones(x: Seq<Option<Seq<char>>>)
    requires
        forall|i: int| 0 <= i < x.len() ==> (#[trigger] x[i]) is None,
    ensures
        somes(x) == Seq::<Seq<char>>::empty(),
    decreases x.len(),
{
    if x.len() > 0 {
        assert(x[0] is None);
        assert forall|i: int| 0 <= i < x.drop_first().len() implies (#[trigger] x.drop_first()[i]) is None by {
            assert(x.drop_first()[i] == x[i + 1]);
        }
        lemma_somes_of_nones(x.drop_first());
    }
}

/// The leaves are the values met at the ends of a left-to-right walk.
proof fn lemma_leaves_are_somes(t: TreeModel)
    ensures
        t.leaves() == somes(items(t)),
    decreases t,
{
    match t {
        TreeModel::Node { left, right, .. } => {
            lemma_leaves_are_somes(*left);
            lemma_leaves_are_somes(*right);
            lemma_somes_append(items(*left), items(*right));
        },
        TreeModel::Empty { .. } => {
            reveal_with_fuel(somes, 2);
            assert(seq![None::<Seq<char>>].drop_first() =~= Seq::empty());
        },
        TreeModel::Leaf { value, .. } => {
            reveal_with_fuel(somes, 2);
            assert(seq![Some(value)].drop_first() =~= Seq::empty());
            assert(seq![value] + Seq::<Seq<char>>::empty() =~= seq![value]);
        },
    }
}

proof fn lemma_descend_items(t: TreeModel, stack: Seq<TreeModel>)
    ensures
        state_items(descend(t, stack)) == items(t) + stack_items(stack),
    decreases t,
{
    if let TreeModel::Node { left, right, .. } = t {
        lemma_descend_items(*left, stack.push(*right));
        assert(stack.push(*right).drop_last() =~= stack);
        assert(items(*left) + (items(*right) + stack_items(stack)) =~= items(t) + stack_items(stack));
    }
}

/// From a state whose ends hold no value after an empty one, enough steps
/// hand out exactly the values of those ends.
proof fn lemma_produced_somes(s: (Option<Seq<char>>, Seq<TreeModel>), n: nat)
    requires
        leaves_before_empties(state_items(s)),
        n >= somes(state_items(s)).len(),
    ensures
        produced(s, n) == somes(state_items(s)),
    decreases n,
{
    let x = state_items(s);
    assert(x[0] == s.0);
    assert(x.drop_first() =~= stack_items(s.1));
    if s.0 is None {
        assert forall|j: int| 0 <= j < x.len() implies (#[trigger] x[j]) is None by {
            if j > 0 {
                assert(x[0] is None);
            }
        }
        lemma_somes_of_nones(x);
    } else {
        let v = s.0->0;
        if s.1.len() == 0 {
            assert(x =~= seq![Some(v)]);
            assert(x.drop_first() =~= Seq::empty());
            assert(state_items(step(s)) =~= seq![None]);
            assert(seq![None::<Seq<char>>].drop_first() =~= Seq::empty());
        } else {
            lemma_descend_items(s.1.last(), s.1.drop_last());
            assert(state_items(step(s)) == x.drop_first());
            assert forall|i: int, j: int|
                0 <= i < j < x.drop_first().len() && (#[trigger] x.drop_first()[i]) is None implies (
                #[trigger] x.drop_first()[j]) is None by {
                assert(x.drop_first()[i] == x[i + 1]);
                assert(x.drop_first()[j] == x[j + 1]);
            }
        }
        if n > 0 {
            lemma_produced_somes(step(s), (n - 1) as nat);
        }
    }
}

/// Whatever the state, the steps hand out a prefix of the values of its ends.
proof fn lemma_produced_prefix(s: (Option<Seq<char>>, Seq<TreeModel>), n: nat)
    ensures
        produced(s, n).len() <= somes(state_items(s)).len(),
        produced(s, n) == somes(state_items(s)).subrange(0, produced(s, n).len() as int),
    decreases n,
{
    let x = state_items(s);
    assert(x[0] == s.0);
    assert(x.drop_first() =~= stack_items(s.1));
    if n > 0 && s.0 is Some {
        let v = s.0->0;
        lemma_produced_prefix(step(s), (n - 1) as nat);
        if s.1.len() == 0 {
            assert(state_items(step(s)) =~= seq![None]);
            assert(seq![None::<Seq<char>>].drop_first() =~= Seq::empty());
            reveal_with_fuel(somes, 2);
        } else {
            lemma_descend_items(s.1.last(), s.1.drop_last());
        }
        let p = produced(step(s), (n - 1) as nat);
        assert(produced(s, n) =~= somes(x).subrange(0, p.len() + 1 as int));
    } else {
        assert(produced(s, n) =~= somes(x).subrange(0, 0));
    }
}

/// On every tree, a traversal hands out leaves from the left in order and
/// never more of them than `count`, however many steps are taken.
pub proof fn lemma_traversal_within_leaves(t: TreeModel, n: nat)
    ensures
        produced(descend(t, Seq::empty()), n).len() <= t.count(),
        produced(descend(t, Seq::empty()), n) == t.leaves().subrange(
            0,
            produced(descend(t, Seq::empty()), n).len() as int,
        ),
{
    crate::tree::lemma_count_is_leaves_len(t);
    lemma_leaves_are_somes(t);
    lemma_descend_items(t, Seq::empty());
    assert(items(t) + stack_items(Seq::empty()) =~= items(t));
    lemma_produced_prefix(descend(t, Seq::empty()), n);
}

/// A traversal hands out every leaf, from left to right and as many as
/// `count`, exactly when no leaf comes after an empty subtree in that order;
/// further steps hand out nothing more.
pub proof fn lemma_traversal_yields_leaves(t: TreeModel, n: nat)
    requires
        leaves_before_empties(items(t)),
        n >= t.count(),
    ensures
        produced(descend(t, Seq::empty()), n) == t.leaves(),
        produced(descend(t, Seq::empty()), n).len() == t.count(),
{
    crate::tree::lemma_count_is_leaves_len(t);
    lemma_leaves_are_somes(t);
    lemma_descend_items(t, Seq::empty());
    assert(items(t) + stack_items(Seq::empty()) =~= items(t));
    lemma_produced_somes(descend(t, Seq::empty()), n);
}

/// A borrowing traversal of the leaves of a `Tree`.
pub struct LeavesIterator<'a> {
    current_value: Option<&'a TreeLeafData>,
    right_nodes: Vec<&'a Tree>,
}

impl<'a> View for LeavesIterator<'a> {
    type V = (Option<Seq<char>>, Seq<TreeModel>);

    closed spec fn view(&self) -> (Option<Seq<char>>, Seq<TreeModel>) {
        (
            match self.current_value {
                Some(v) => Some(v@),
                None => None,
            },
            self.right_nodes@.map_values(|t: &Tree| t@),
        )
    }
}

impl<'a> LeavesIterator<'a> {
    /// A traversal positioned on the leftmost leaf of `root`.
    pub fn new(root: &'a Tree) -> (r: Self)
        ensures
            r@ == descend(root@, Seq::empty()),
    {
        let mut iter = LeavesIterator { current_value: None, right_nodes: Vec::new() };
        assert(iter@.1 =~= Seq::empty());
        iter.add_left(root);
        iter
    }

    /// Walks left from `tree`, pushing each right child met on the way.
    pub fn add_left(&mut self, tree: &'a Tree)
        ensures
            final(self)@ == descend(tree@, old(self)@.1),
    {
        let ghost start = tree@;
        let mut tree = tree;
        loop
            invariant
                descend(tree@, self@.1) == descend(start, old(self)@.1),
            ensures
                self@ == descend(start, old(self)@.1),
            decreases tree@.height(),
        {
            match tree {
                Tree::Empty { .. } => {
                    self.current_value = None;
                    break ;
                },
                Tree::Node { left, right, .. } => {
                    let r: &'a Tree = &**right;
                    let ghost before = self@.1;
                    self.right_nodes.push(r);
                    assert(self@.1 =~= before.push(r@));
                    tree = &**left;
                },
                Tree::Leaf { value, .. } => {
                    self.current_value = Some(value);
                    break ;
                },
            }
        }
    }

    /// Hands out the current value and moves to the next leaf.
    pub fn next(&mut self) -> (r: Option<&'a TreeLeafData>)
        ensures
            match r {
                Some(v) => old(self)@.0 == Some(v@),
                None => old(self)@.0 is None,
            },
            final(self)@ == step(old(self)@),
            traversable(old(self)@) ==> traversable(final(self)@) && remaining(final(self)@)
                == rest_of(remaining(old(self)@)),
    {
        proof {
            if traversable(self@) {
                lemma_step(self@);
            }
        }
        let result = self.current_value.take();
        let ghost before = self@.1;
        if let Some(rest) = self.right_nodes.pop() {
            assert(self@.1 =~= before.drop_last());
            self.add_left(rest);
        }
        result
    }
}

/// A consuming traversal of the leaves of a `Tree`.
pub struct LeavesIntoIterator {
    current_value: Option<TreeLeafData>,
    right_nodes: Vec<Tree>,
}

impl View for LeavesIntoIterator {
    type V = (Option<Seq<char>>, Seq<TreeModel>);

    closed spec fn view(&self) -> (Option<Seq<char>>, Seq<TreeModel>) {
        (
            match self.current_value {
                Some(v) => Some(v@),
                None => None,
            },
            self.right_nodes@.map_values(|t: Tree| t@),
        )
    }
}

impl LeavesIntoIterator {
    /// A traversal positioned on the leftmost leaf of `root`.
    pub fn new(root: Tree) -> (r: Self)
        ensures
            r@ == descend(root@, Seq::empty()),
    {
        let mut iter = LeavesIntoIterator { current_value: None, right_nodes: Vec::new() };
        assert(iter@.1 =~= Seq::empty());
        iter.add_left(root);
        iter
    }

    /// Walks left from `tree`, pushing each right child met on the way.
    pub fn add_left(&mut self, tree: Tree)
        ensures
            final(self)@ == descend(tree@, old(self)@.1),
    {
        let ghost start = tree@;
        let mut tree = tree;
        loop
            invariant
                descend(tree@, self@.1) == descend(start, old(self)@.1),
            ensures
                self@ == descend(start, old(self)@.1),
            decreases tree@.height(),
        {
            match tree {
                Tree::Empty { .. } => {
                    self.current_value = None;
                    break ;
                },
                Tree::Node { left, right, .. } => {
                    let ghost before = self@.1;
                    let r: Tree = *right;
                    self.right_nodes.push(r);
                    assert(self@.1 =~= before.push(r@));
                    tree = *left;
                },
                Tree::Leaf { value, .. } => {
                    self.current_value = Some(value);
                    break ;
                },
            }
        }
    }

    /// Hands out the current value and moves to the next leaf.
    pub fn next(&mut self) -> (r: Option<TreeLeafData>)
        ensures
            match r {
                Some(v) => old(self)@.0 == Some(v@),
                None => old(self)@.0 is None,
            },
            final(self)@ == step(old(self)@),
            traversable(old(self)@) ==> traversable(final(self)@) && remaining(final(self)@)
                == rest_of(remaining(old(self)@)),
    {
        proof {
            if traversable(self@) {
                lemma_step(self@);
            }
        }
        let result = self.current_value.take();
        let ghost before = self@.1;
        if let Some(rest) = self.right_nodes.pop() {
            assert(self@.1 =~= before.drop_last());
            self.add_left(rest);
        }
        result
    }
}

} // verus!
