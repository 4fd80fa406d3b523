use vstd::multiset::Multiset;
use vstd::prelude::*;

verus! {

broadcast use vstd::set::group_set_axioms, vstd::multiset::group_multiset_axioms;

#[derive(Debug)]
pub struct Node {
    elem: i32,
    left: Link,
    right: Link,
}

type Link = Option<Box<Node>>;

/// An unbalanced binary search tree of `i32` values that can hand its
/// elements out through iterators.
#[derive(Debug)]
pub struct BST {
    root: Link,
}

/// The values held below a link.
pub closed spec fn link_set(l: Link) -> Set<i32>
    decreases l,
{
    match l {
        None => Set::empty(),
        Some(node) => link_set(node.left).union(link_set(node.right)).insert(node.elem),
    }
}

/// The search-tree order below a link.
pub closed spec fn link_wf(l: Link) -> bool
    decreases l,
{
    match l {
        None => true,
        Some(node) => {
            &&& (forall|x: i32| link_set(node.left).contains(x) ==> x < node.elem)
            &&& (forall|x: i32| link_set(node.right).contains(x) ==> x > node.elem)
            &&& link_wf(node.left)
            &&& link_wf(node.right)
        },
    }
}

/// The values below a link, with multiplicity.
pub closed spec fn link_ms(l: Link) -> Multiset<i32>
    decreases l,
{
    match l {
        None => Multiset::empty(),
        Some(node) => Multiset::singleton(node.elem).add(link_ms(node.left)).add(
            link_ms(node.right),
        ),
    }
}

fn link_insert(link: &mut Link, elem: i32) -> (r: bool)
    requires
        link_wf(*old(link)),
    ensures
        link_wf(*final(link)),
        link_set(*final(link)) == link_set(*old(link)).insert(elem),
        r == !link_set(*old(link)).contains(elem),
    decreases *old(link),
{
    match link {
        None => {
            proof {
                assert(link_set(*old(link)) =~= Set::<i32>::empty());
                assert(!link_set(*old(link)).contains(elem));
            }
            let node = Node { elem, left: None, right: None };
            *link = Some(Box::new(node));
            proof {
                assert(link_set(*link) =~= link_set(*old(link)).insert(elem));
            }
            true
        },
        Some(boxed_node) => {
            let ghost l0 = boxed_node.left;
            let ghost r0 = boxed_node.right;
            let ghost e0 = boxed_node.elem;
            proof {
                assert(link_set(*old(link)) == link_set(l0).union(link_set(r0)).insert(e0));
                assert(forall|x: i32| link_set(l0).contains(x) ==> x < e0);
                assert(forall|x: i32| link_set(r0).contains(x) ==> x > e0);
            }
            if elem < boxed_node.elem {
                let r = link_insert(&mut boxed_node.left, elem);
                proof {
                    assert(link_set(*old(link)).contains(elem) == link_set(l0).contains(elem));
                    assert(link_set(*link) == link_set(l0).insert(elem).union(
                        link_set(r0),
                    ).insert(e0));
                    assert(link_set(*link) =~= link_set(*old(link)).insert(elem));
                    assert(forall|x: i32| link_set(l0).insert(elem).contains(x) ==> x < e0);
                    assert(link_wf(*link));
                }
                r
            } else if elem > boxed_node.elem {
                let r = link_insert(&mut boxed_node.right, elem);
                proof {
                    assert(link_set(*old(link)).contains(elem) == link_set(r0).contains(elem));
                    assert(link_set(*link) == link_set(l0).union(
                        link_set(r0).insert(elem),
                    ).insert(e0));
                    assert(link_set(*link) =~= link_set(*old(link)).insert(elem));
                    assert(forall|x: i32| link_set(r0).insert(elem).contains(x) ==> x > e0);
                    assert(link_wf(*link));
                }
                r
            } else {
                proof {
                    assert(elem == e0);
                    assert(link_set(*old(link)).contains(elem));
                    assert(*link == *old(link));
                    assert(link_set(*link) =~= link_set(*old(link)).insert(elem));
                }
                false
            }
        },
    }
}

fn link_search(link: &Link, elem: i32) -> (r: bool)
    requires
        link_wf(*link),
    ensures
        r == link_set(*link).contains(elem),
    decreases *link,
{
    match link {
        None => {
            proof {
                assert(link_set(*link) =~= Set::<i32>::empty());
            }
            false
        },
        Some(boxed_node) => {
            let node = &**boxed_node;
            proof {
                assert(link_set(*link) == link_set(node.left).union(
                    link_set(node.right),
                ).insert(node.elem));
                assert(link_wf(node.left) && link_wf(node.right));
            }
            if elem < node.elem {
                link_search(&node.left, elem)
            } else if elem > node.elem {
                link_search(&node.right, elem)
            } else {
                true
            }
        },
    }
}

impl BST {
    /// The values stored in the tree.
    pub closed spec fn view(&self) -> Set<i32> {
        link_set(self.root)
    }

    /// The values stored, with multiplicity; in a well-formed tree each
    /// occurs once.
    pub closed spec fn as_ms(&self) -> Multiset<i32> {
        link_ms(self.root)
    }

    /// The tree keeps the search order everywhere.
    pub closed spec fn wf(&self) -> bool {
        link_wf(self.root)
    }

    pub fn new() -> (t: BST)
        ensures
            t.wf(),
            t@ == Set::<i32>::empty(),
            t.as_ms() == Multiset::<i32>::empty(),
    {
        BST { root: None }
    }

    /// Insert an element into the BST. Return true
    /// if successful, or false if the element was already in the BST.
    pub fn insert(&mut self, elem: i32) -> (r: bool)
        requires
            old(self).wf(),
        ensures
            final(self).wf(),
            final(self)@ == old(self)@.insert(elem),
            r == !old(self)@.contains(elem),
    {
        link_insert(&mut self.root, elem)
    }

    /// Search for an element in the BST. Return true
    /// if the element was found.
    pub fn search(&self, elem: i32) -> (r: bool)
        requires
            self.wf(),
        ensures
            r == self@.contains(elem),
    {
        link_search(&self.root, elem)
    }

    /// Hands the tree to an iterator that consumes it.
    pub fn into_iter(self) -> (r: IntoIter)
        ensures
            r@ == self.as_ms(),
    {
        let it = IntoIter { stack: Vec::new(), tree: self };
        proof {
            assert(it@ =~= it.tree.as_ms());
        }
        it
    }

    /// Hands out an iterator that borrows the tree.
    pub fn iter(&self) -> (r: Iter<'_>)
        ensures
            r@ == self.as_ms(),
    {
        let mut stack: Vec<&Node> = Vec::new();
        if let Some(node) = &self.root {
            stack.push(&**node);
        }
        let it = Iter { stack };
        proof {
            match &self.root {
                Some(b) => {
                    let s = it.stack@;
                    assert(s.len() == 1);
                    assert(stack_ms_ref(s.drop_last()) =~= Multiset::<i32>::empty());
                    assert(node_link(*s.last()) == self.root);
                    assert(it@ =~= self.as_ms());
                },
                None => {
                    assert(it.stack@.len() == 0);
                    assert(it@ =~= Multiset::<i32>::empty());
                    assert(self.as_ms() =~= Multiset::<i32>::empty());
                },
            }
        }
        it
    }
}

spec fn stack_ms(s: Seq<Box<Node>>) -> Multiset<i32>
    decreases s.len(),
{
    if s.len() == 0 {
        Multiset::empty()
    } else {
        stack_ms(s.drop_last()).add(link_ms(Some(s.last())))
    }
}

/// Consumes a tree, handing out each element at most once. The traversal
/// follows the original discipline exactly, so elements it sets aside while
/// descending can be skipped: what comes out is drawn from the tree without
/// repetition, not necessarily all of it.
pub struct IntoIter {
    stack: Vec<Box<Node>>,
    tree: BST,
}

impl IntoIter {
    /// The values still held by the iterator, with multiplicity.
    pub closed spec fn view(&self) -> Multiset<i32> {
        stack_ms(self.stack@).add(self.tree.as_ms())
    }

    fn find_next(&mut self, node: Box<Node>) -> (e: i32)
        ensures
            link_ms(Some(node)).count(e) > 0,
            forall|x: i32|
                final(self)@.count(x) + (if x == e {
                    1nat
                } else {
                    0nat
                }) <= old(self)@.count(x) + link_ms(Some(node)).count(x),
        decreases node,
    {
        let mut node = node;
        let ghost n0 = node;
        if let Some(left_node) = node.left.take() {
            if let Some(right_node) = node.right.take() {
                let ghost pre = self.stack@;
                self.stack.push(right_node);
                proof {
                    assert(self.stack@.drop_last() =~= pre);
                }
            }
            self.find_next(left_node)
        } else if let Some(right_node) = node.right.take() {
            let ghost pre = self.stack@;
            self.stack.push(right_node);
            proof {
                assert(self.stack@.drop_last() =~= pre);
            }
            node.elem
        } else {
            node.elem
        }
    }

    pub fn next(&mut self) -> (r: Option<i32>)
        ensures
            r is None <==> old(self)@ == Multiset::<i32>::empty(),
            r matches Some(e) ==> old(self)@.count(e) > 0 && (forall|x: i32|
                final(self)@.count(x) + (if x == e {
                    1nat
                } else {
                    0nat
                }) <= old(self)@.count(x)),
    {
        let next_start = self.stack.pop();
        if let Some(next_start) = next_start {
            proof {
                assert(old(self).stack@.drop_last() =~= self.stack@);
                assert(old(self)@.count(next_start.elem) > 0);
            }
            Some(self.find_next(next_start))
        } else {
            let root = self.tree.root.take();
            if let Some(node) = root {
                proof {
                    assert(old(self)@.count(node.elem) > 0);
                }
                Some(self.find_next(node))
            } else {
                proof {
                    assert(old(self)@ =~= Multiset::<i32>::empty());
                }
                None
            }
        }
    }
}

spec fn stack_ms_ref(s: Seq<&Node>) -> Multiset<i32>
    decreases s.len(),
{
    if s.len() == 0 {
        Multiset::empty()
    } else {
        stack_ms_ref(s.drop_last()).add(link_ms(node_link(*s.last())))
    }
}

spec fn node_link(n: Node) -> Link {
    Some(Box::new(n))
}

/// Borrows a tree, handing out each element at most once, under the same
/// traversal discipline as [`IntoIter`].
pub struct Iter<'a> {
    stack: Vec<&'a Node>,
}

impl<'a> Iter<'a> {
    /// The values still held by the iterator, with multiplicity.
    pub closed spec fn view(&self) -> Multiset<i32> {
        stack_ms_ref(self.stack@)
    }

    fn find_next(&mut self, node: &'a Node) -> (e: &'a i32)
        ensures
            link_ms(node_link(*node)).count(*e) > 0,
            forall|x: i32|
                final(self)@.count(x) + (if x == *e {
                    1nat
                } else {
                    0nat
                }) <= old(self)@.count(x) + link_ms(node_link(*node)).count(x),
        decreases *node,
    {
        if let Some(left_node) = &node.left {
            if let Some(right_node) = &node.right {
                let ghost pre = self.stack@;
                self.stack.push(&**right_node);
                proof {
                    assert(self.stack@.drop_last() =~= pre);
                }
            }
            self.find_next(&**left_node)
        } else if let Some(right_node) = &node.right {
            let ghost pre = self.stack@;
            self.stack.push(&**right_node);
            proof {
                assert(self.stack@.drop_last() =~= pre);
            }
            &node.elem
        } else {
            &node.elem
        }
    }

    pub fn next(&mut self) -> (r: Option<&'a i32>)
        ensures
            r is None <==> old(self)@ == Multiset::<i32>::empty(),
            r matches Some(e) ==> old(self)@.count(*e) > 0 && (forall|x: i32|
                final(self)@.count(x) + (if x == *e {
                    1nat
                } else {
                    0nat
                }) <= old(self)@.count(x)),
    {
        let next_start = self.stack.pop();
        if let Some(next_start) = next_start {
            proof {
                assert(old(self).stack@.drop_last() =~= self.stack@);
                assert(old(self)@.count(next_start.elem) > 0);
            }
            Some(self.find_next(next_start))
        } else {
            proof {
                assert(old(self)@ =~= Multiset::<i32>::empty());
            }
            None
        }
    }
}

/// Borrows a tree mutably, handing out a mutable handle to one element at a
/// time, under the same traversal discipline as [`IntoIter`]. Writing
/// through a handle changes that element in place; the tree's shape is never
/// touched.
pub struct IterMut<'a> {
    stack: Vec<&'a mut Node>,
}

impl BST {
    /// Hands out an iterator that borrows the tree mutably; it starts from
    /// the root, so a non-empty tree yields at least one element.
    pub fn iter_mut(&mut self) -> (r: IterMut<'_>) {
        let mut stack: Vec<&mut Node> = Vec::new();
        match &mut self.root {
            Some(node) => {
                stack.push(&mut **node);
            },
            None => {},
        }
        IterMut { stack }
    }
}

impl<'a> IterMut<'a> {
    /// How many traversal handles are pending; elements are handed out only
    /// while it is positive.
    pub closed spec fn stack_len(&self) -> int {
        self.stack@.len() as int
    }

    fn find_next(&mut self, node: &'a mut Node) -> (e: &'a mut i32)
        decreases *old(node),
    {
        if node.left.is_some() {
            let n = &mut **node.left.as_mut().unwrap();
            if node.right.is_some() {
                let r = &mut **node.right.as_mut().unwrap();
                self.stack.push(r);
            }
            self.find_next(n)
        } else if node.right.is_some() {
            let r = &mut **node.right.as_mut().unwrap();
            self.stack.push(r);
            &mut node.elem
        } else {
            &mut node.elem
        }
    }

    /// The next element, as a mutable handle, or `None` once no traversal
    /// handle is pending.
    pub fn next(&mut self) -> (r: Option<&'a mut i32>)
        ensures
            r is Some <==> old(self).stack_len() > 0,
    {
        let next_start = self.stack.pop();
        if let Some(next_start) = next_start {
            Some(self.find_next(next_start))
        } else {
            None
        }
    }
}

} // verus!
