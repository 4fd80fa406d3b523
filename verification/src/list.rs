use vstd::prelude::*;

verus! {

struct Node<T> {
    elem: T,
    next: Link<T>,
}

type Link<T> = Option<Box<Node<T>>>;

/// A singly linked stack: pushes and pops happen at the head.
pub struct List<T> {
    head: Link<T>,
}

impl<T> List<T> {
    /// The elements of the list, head first.
    pub closed spec fn view(&self) -> Seq<T> {
        Self::link_view(self.head)
    }

    spec fn link_view(link: Link<T>) -> Seq<T>
        decreases link,
    {
        match link {
            None => Seq::empty(),
            Some(node) => seq![node.elem] + Self::link_view(node.next),
        }
    }

    pub fn new() -> (r: Self)
        ensures
            r@ == Seq::<T>::empty(),
    {
        List { head: None }
    }

    pub fn push(&mut self, elem: T)
        ensures
            final(self)@ == seq![elem] + old(self)@,
    {
        let new_node = Node { elem, next: self.head.take() };
        self.head = Some(Box::new(new_node));
    }

    pub fn pop(&mut self) -> (r: Option<T>)
        ensures
            old(self)@.len() == 0 ==> (r is None && final(self)@ == old(self)@),
            old(self)@.len() > 0 ==> (r == Some(old(self)@[0]) && final(self)@ == old(
                self,
            )@.drop_first()),
    {
        match self.head.take() {
            None => None,
            Some(boxed_node) => {
                let node = *boxed_node;
                self.head = node.next;
                proof {
                    assert(final(self)@ =~= old(self)@.drop_first());
                }
                Some(node.elem)
            },
        }
    }

    pub fn peek(&self) -> (r: Option<&T>)
        ensures
            self@.len() == 0 ==> r is None,
            self@.len() > 0 ==> (r matches Some(e) && *e == self@[0]),
    {
        match &self.head {
            None => None,
            Some(node) => Some(&node.elem),
        }
    }

    pub fn peek_mut(&mut self) -> (r: Option<&mut T>)
        ensures
            old(self)@.len() == 0 ==> (r is None && final(self)@ == old(self)@),
            old(self)@.len() > 0 ==> (r matches Some(e) && *e == old(self)@[0] && final(self)@
                == old(self)@.update(0, *final(e))),
    {
        match &mut self.head {
            None => None,
            Some(node) => {
                let e = &mut node.elem;
                proof {
                    assert(old(self)@.update(0, *final(e)) =~= seq![*final(e)] + old(
                        self,
                    )@.drop_first());
                }
                Some(e)
            },
        }
    }

    pub fn into_iter(self) -> (r: IntoIter<T>)
        ensures
            r@ == self@,
    {
        IntoIter(self)
    }
}

/// Consumes a list, handing its elements out head first.
pub struct IntoIter<T>(List<T>);

impl<T> IntoIter<T> {
    /// The elements still to be handed out.
    pub closed spec fn view(&self) -> Seq<T> {
        self.0@
    }

    pub fn next(&mut self) -> (r: Option<T>)
        ensures
            old(self)@.len() == 0 ==> (r is None && final(self)@ == old(self)@),
            old(self)@.len() > 0 ==> (r == Some(old(self)@[0]) && final(self)@ == old(
                self,
            )@.drop_first()),
    {
        self.0.pop()
    }
}

} // verus!
