//! A generic tree whose leaves carry values and whose branches hold any
//! number of subtrees.

use vstd::prelude::*;
use vstd::std_specs::cmp::{PartialEqSpec, PartialEqSpecImpl};

verus! {

/// A tree with values of type `T` at its leaves.
#[derive(Debug)]
pub enum Tree<T> {
    /// No tree at all; distinct from a branch without subtrees.
    Nil,
    /// A single value.
    Leaf(T),
    /// An ordered sequence of subtrees.
    Branch(Vec<Tree<T>>),
}

impl<T> Tree<T> {
    /// A branch without subtrees.
    pub fn empty_branch() -> (r: Tree<T>)
        ensures
            r is Branch,
            r->Branch_0@ == Seq::<Tree<T>>::empty(),
    {
        Tree::Branch(Vec::new())
    }

    pub fn is_nil(&self) -> (r: bool)
        ensures
            r == (self is Nil),
    {
        match self {
            Tree::Nil => true,
            _ => false,
        }
    }

    pub fn is_leaf(&self) -> (r: bool)
        ensures
            r == (self is Leaf),
    {
        match self {
            Tree::Leaf(_) => true,
            _ => false,
        }
    }

    pub fn is_branch(&self) -> (r: bool)
        ensures
            r == (self is Branch),
    {
        match self {
            Tree::Branch(_) => true,
            _ => false,
        }
    }

    /// The value of a leaf.
    pub fn get_ref_leaf(&self) -> (r: &T)
        requires
            self is Leaf,
        ensures
            *r == self->Leaf_0,
    {
        match self {
            Tree::Leaf(val) => val,
            _ => unreached(),
        }
    }

    /// The subtrees of a branch.
    pub fn get_ref_branch(&self) -> (r: &Vec<Tree<T>>)
        requires
            self is Branch,
        ensures
            *r == self->Branch_0,
    {
        match self {
            Tree::Branch(val) => val,
            _ => unreached(),
        }
    }

    /// The value of a leaf, taking the tree apart.
    pub fn unwrap_leaf(self) -> (r: T)
        requires
            self is Leaf,
        ensures
            r == self->Leaf_0,
    {
        match self {
            Tree::Leaf(val) => val,
            _ => unreached(),
        }
    }

    /// The subtrees of a branch, taking the tree apart.
    pub fn unwrap_branch(self) -> (r: Vec<Tree<T>>)
        requires
            self is Branch,
        ensures
            r == self->Branch_0,
    {
        match self {
            Tree::Branch(val) => val,
            _ => unreached(),
        }
    }
}

/// Whether `copy` can come of cloning `tree`: they have the same shape, and
/// each leaf of `copy` can come of cloning the leaf of `tree` in its place.
pub open spec fn cloned_tree<T: Clone>(tree: Tree<T>, copy: Tree<T>) -> bool
    decreases tree,
{
    match tree {
        Tree::Nil => copy is Nil,
        Tree::Leaf(val) => copy is Leaf && cloned::<T>(val, copy->Leaf_0),
        Tree::Branch(subtrees) => {
            &&& copy is Branch
            &&& copy->Branch_0.len() == subtrees.len()
            &&& forall|i: int|
                0 <= i < subtrees.len() ==> cloned_tree(
                    #[trigger] subtrees[i],
                    copy->Branch_0[i],
                )
        },
    }
}

impl<T: Clone> Clone for Tree<T> {
    /// A deep copy.
    fn clone(&self) -> (r: Self)
        ensures
            cloned_tree(*self, r),
        decreases self,
    {
        match self {
            Tree::Nil => Tree::Nil,
            Tree::Leaf(val) => Tree::Leaf(val.clone()),
            Tree::Branch(subtrees) => {
                let mut out: Vec<Tree<T>> = Vec::new();
                let mut i: usize = 0;
                while i < subtrees.len()
                    invariant
                        self is Branch,
                        self->Branch_0 == *subtrees,
                        i <= subtrees.len(),
                        out.len() == i,
                        forall|j: int| 0 <= j < i ==> cloned_tree(#[trigger] subtrees[j], out[j]),
                    decreases subtrees.len() - i,
                {
                    assert(decreases_to!(*subtrees => subtrees[i as int]));
                    out.push(subtrees[i].clone());
                    i += 1;
                }
                Tree::Branch(out)
            },
        }
    }
}

/// Whether two trees have the same shape and equal values at their leaves,
/// as the equality of `T` sees them.
pub open spec fn tree_eq<T: PartialEq>(a: Tree<T>, b: Tree<T>) -> bool
    decreases a,
{
    match a {
        Tree::Nil => b is Nil,
        Tree::Leaf(val) => b is Leaf && val.eq_spec(&b->Leaf_0),
        Tree::Branch(subtrees) => {
            &&& b is Branch
            &&& b->Branch_0.len() == subtrees.len()
            &&& forall|i: int|
                0 <= i < subtrees.len() ==> tree_eq(#[trigger] subtrees[i], b->Branch_0[i])
        },
    }
}

impl<T: PartialEq> PartialEq for Tree<T> {
    /// Structural equality.
    fn eq(&self, other: &Tree<T>) -> (r: bool)
        decreases self,
    {
        match (self, other) {
            (Tree::Nil, Tree::Nil) => true,
            (Tree::Leaf(a), Tree::Leaf(b)) => *a == *b,
            (Tree::Branch(a), Tree::Branch(b)) => {
                if a.len() != b.len() {
                    return false;
                }
                let mut i: usize = 0;
                while i < a.len()
                    invariant
                        self is Branch,
                        self->Branch_0 == *a,
                        other is Branch,
                        other->Branch_0 == *b,
                        i <= a.len(),
                        a.len() == b.len(),
                        T::obeys_eq_spec() ==> forall|j: int|
                            0 <= j < i ==> tree_eq(#[trigger] a[j], b[j]),
                    decreases a.len() - i,
                {
                    assert(decreases_to!(*a => a[i as int]));
                    if !a[i].eq(&b[i]) {
                        return false;
                    }
                    i += 1;
                }
                true
            },
            _ => false,
        }
    }
}

impl<T: PartialEq> PartialEqSpecImpl for Tree<T> {
    open spec fn obeys_eq_spec() -> bool {
        T::obeys_eq_spec()
    }

    open spec fn eq_spec(&self, other: &Tree<T>) -> bool {
        tree_eq(*self, *other)
    }
}

impl<T: Eq> Eq for Tree<T> {

}

} // verus!
