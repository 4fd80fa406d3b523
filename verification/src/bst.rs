use vstd::prelude::*;

verus! {

broadcast use vstd::set::group_set_axioms;

/// An unbalanced binary search tree of `i32` values.
#[derive(Debug)]
pub struct BST {
    root: Link,
}

#[derive(Debug)]
pub struct Node {
    elem: i32,
    left: Link,
    right: Link,
}

#[derive(Debug)]
pub enum Link {
    Empty,
    More(Box<Node>),
}

impl Link {
    /// The values held below this link.
    pub closed spec fn as_set(self) -> Set<i32>
        decreases self,
    {
        match self {
            Link::Empty => Set::empty(),
            Link::More(node) => node.left.as_set().union(node.right.as_set()).insert(node.elem),
        }
    }

    /// The search-tree order: everything on the left is smaller, everything
    /// on the right larger.
    pub closed spec fn wf(self) -> bool
        decreases self,
    {
        match self {
            Link::Empty => true,
            Link::More(node) => {
                &&& (forall|x: i32| node.left.as_set().contains(x) ==> x < node.elem)
                &&& (forall|x: i32| node.right.as_set().contains(x) ==> x > node.elem)
                &&& node.left.wf()
                &&& node.right.wf()
            },
        }
    }

    pub fn insert(&mut self, elem: i32) -> (r: bool)
        requires
            old(self).wf(),
        ensures
            final(self).wf(),
            final(self).as_set() == old(self).as_set().insert(elem),
            r == !old(self).as_set().contains(elem),
        decreases *old(self),
    {
        match self {
            Link::Empty => {
                proof {
                    assert(old(self).as_set() =~= Set::<i32>::empty());
                    assert(!old(self).as_set().contains(elem));
                }
                let node = Node { elem, left: Link::Empty, right: Link::Empty };
                *self = Link::More(Box::new(node));
                proof {
                    assert(self.as_set() =~= old(self).as_set().insert(elem));
                }
                true
            },
            Link::More(boxed_node) => {
                let ghost l0 = boxed_node.left;
                let ghost r0 = boxed_node.right;
                let ghost e0 = boxed_node.elem;
                proof {
                    assert(old(self).as_set() == l0.as_set().union(r0.as_set()).insert(e0));
                    assert(forall|x: i32| l0.as_set().contains(x) ==> x < e0);
                    assert(forall|x: i32| r0.as_set().contains(x) ==> x > e0);
                }
                if elem < boxed_node.elem {
                    let r = boxed_node.left.insert(elem);
                    proof {
                        assert(old(self).as_set().contains(elem) == l0.as_set().contains(elem));
                        assert(self.as_set() == l0.as_set().insert(elem).union(r0.as_set()).insert(
                            e0,
                        ));
                        assert(self.as_set() =~= old(self).as_set().insert(elem));
                        assert(forall|x: i32|
                            l0.as_set().insert(elem).contains(x) ==> x < e0);
                        assert(self.wf());
                    }
                    r
                } else if elem > boxed_node.elem {
                    let r = boxed_node.right.insert(elem);
                    proof {
                        assert(old(self).as_set().contains(elem) == r0.as_set().contains(elem));
                        assert(self.as_set() == l0.as_set().union(r0.as_set().insert(elem)).insert(
                            e0,
                        ));
                        assert(self.as_set() =~= old(self).as_set().insert(elem));
                        assert(forall|x: i32|
                            r0.as_set().insert(elem).contains(x) ==> x > e0);
                        assert(self.wf());
                    }
                    r
                } else {
                    proof {
                        assert(elem == e0);
                        assert(old(self).as_set().contains(elem));
                        assert(*self == *old(self));
                        assert(self.as_set() =~= old(self).as_set().insert(elem));
                    }
                    false
                }
            },
        }
    }

    pub fn search(&self, elem: i32) -> (r: bool)
        requires
            self.wf(),
        ensures
            r == self.as_set().contains(elem),
        decreases *self,
    {
        match self {
            Link::Empty => {
                proof {
                    assert(*self matches Link::Empty);
                    assert(self.as_set() =~= Set::<i32>::empty());
                    assert(!self.as_set().contains(elem));
                }
                false
            },
            Link::More(boxed_node) => {
                let node = &**boxed_node;
                proof {
                    assert(self.as_set() == node.left.as_set().union(node.right.as_set()).insert(
                        node.elem,
                    ));
                    assert(node.left.wf() && node.right.wf());
                }
                if elem < node.elem {
                    node.left.search(elem)
                } else if elem > node.elem {
                    node.right.search(elem)
                } else {
                    true
                }
            },
        }
    }
}

impl BST {
    /// The values stored in the tree.
    pub closed spec fn view(&self) -> Set<i32> {
        self.root.as_set()
    }

    /// The tree keeps the search order everywhere.
    pub closed spec fn wf(&self) -> bool {
        self.root.wf()
    }

    pub fn new() -> (t: BST)
        ensures
            t.wf(),
            t@ == Set::<i32>::empty(),
    {
        BST { root: Link::Empty }
    }

    /// Insert an element into the BST. Return true
    /// if successful, or false if the element was already in the BST.
    pub fn insert(&mut self, elem: i32) -> (r: bool)
        requires
            old(self).wf(),
        ensures
            final(self).wf(),
            final(self)@ == old(self)@.insert(elem),
            r == !old(self)@.contains(elem),
    {
        self.root.insert(elem)
    }

    /// Search for an element in the BST. Return true
    /// if the element was found.
    pub fn search(&self, elem: i32) -> (r: bool)
        requires
            self.wf(),
        ensures
            r == self@.contains(elem),
    {
        self.root.search(elem)
    }
}

} // verus!
