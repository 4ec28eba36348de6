use vstd::prelude::*;

verus! {

/// One cell of the list: a stored value and the arena index of its
/// successor, absent for the last cell.
pub struct Node<T> {
    pub value: T,
    pub next: Option<usize>,
}

impl<T> Node<T> {
    /// A fresh cell holding `value`, not yet linked to a successor.
    pub fn new(value: T) -> (node: Node<T>)
        ensures
            node.value == value,
            node.next is None,
    {
        Node { value, next: None }
    }
}

/// A singly linked first-in-first-out list.
///
/// Cells live in the `nodes` arena; `head` and `tail` are arena indices,
/// absent exactly when the list is empty. A slot holds `None` once its cell
/// has been popped and reclaimed. The ghost field `chain` records the arena
/// indices of the live cells from head to tail; it drives the invariant
/// [`LinkedList::wf`] and the abstraction [`View::view`].
pub struct LinkedList<T> {
    pub nodes: Vec<Option<Node<T>>>,
    pub head: Option<usize>,
    pub tail: Option<usize>,
    pub length: u64,
    pub chain: Ghost<Seq<usize>>,
}

impl<T> View for LinkedList<T> {
    type V = Seq<T>;

    /// The stored values from head to tail.
    open spec fn view(&self) -> Seq<T> {
        Seq::new(self.chain@.len(), |i: int| self.nodes@[self.chain@[i] as int].unwrap().value)
    }
}

impl<T> LinkedList<T> {
    /// Structural invariant: `length` counts the live cells; every chain
    /// entry names a live arena slot; no cell is the successor of two
    /// different cells; following `next` from the head visits the chain in
    /// order and reaches the tail, whose `next` is absent; head and tail are
    /// absent exactly when the list is empty.
    pub open spec fn wf(self) -> bool {
        let ch = self.chain@;
        &&& ch.len() == self.length
        &&& forall|i: int|
            0 <= i < ch.len() ==> (#[trigger] ch[i]) < self.nodes@.len()
                && self.nodes@[ch[i] as int] is Some
        &&& forall|i: int, j: int|
            #![trigger ch[i], ch[j]]
            0 <= i < j < ch.len() ==> ch[i] != ch[j]
        &&& forall|i: int|
            #![trigger ch[i]]
            0 <= i < ch.len() - 1 ==> self.nodes@[ch[i] as int].unwrap().next == Some(ch[i + 1])
        &&& if ch.len() == 0 {
            self.head is None && self.tail is None
        } else {
            &&& self.head == Some(ch[0])
            &&& self.tail == Some(ch[ch.len() - 1])
            &&& self.nodes@[ch[ch.len() - 1] as int].unwrap().next is None
        }
    }

    /// A list with absent head, absent tail and length 0.
    pub fn new_empty() -> (list: LinkedList<T>)
        ensures
            list.wf(),
            list@ == Seq::<T>::empty(),
            list.length == 0,
            list.head is None,
            list.tail is None,
    {
        let list = LinkedList {
            nodes: Vec::new(),
            head: None,
            tail: None,
            length: 0,
            chain: Ghost(Seq::empty()),
        };
        proof {
            assert(list@ =~= Seq::<T>::empty());
        }
        list
    }

    /// Appends `value` at the tail: a fresh cell is linked after the current
    /// tail (or becomes the head of an empty list), becomes the new tail,
    /// and the length grows by one. The abstract value gains `value` at the
    /// back; nothing else changes.
    pub fn append(&mut self, value: T)
        requires
            old(self).wf(),
            old(self).length < u64::MAX,
        ensures
            final(self).wf(),
            final(self)@ == old(self)@.push(value),
            final(self).length == old(self).length + 1,
    {
        let idx = self.nodes.len();
        let new = Node::new(value);
        match self.tail {
            Some(t) => {
                proof {
                    assert(old(self).chain@[old(self).chain@.len() - 1] == t);
                }
                let slot = &mut self.nodes[t];
                match slot {
                    Some(tail_node) => {
                        tail_node.next = Some(idx);
                    },
                    None => {
                        // unreachable: the tail of a well-formed list names a
                        // live slot
                        proof {
                            assert(false);
                        }
                    },
                }
            },
            None => {
                self.head = Some(idx);
            },
        }
        self.nodes.push(Some(new));
        self.length = self.length + 1;
        self.tail = Some(idx);
        proof {
            self.chain@ = old(self).chain@.push(idx as usize);
            assert(self@ =~= old(self)@.push(value));
        }
    }

    /// Pops from the head: on an empty list, returns the absent result and
    /// changes nothing; otherwise detaches the head cell, promotes its
    /// successor to head (clearing the tail as well when there is none),
    /// shrinks the length by one, and moves the stored value out to the
    /// caller. The abstract value loses its front element.
    ///
    /// A detached head cell could only be unsafe to unwrap if something else
    /// still referenced it; the invariant rules that state out, so moving the
    /// value out needs no run-time consistency check.
    pub fn pop(&mut self) -> (popped: Option<T>)
        requires
            old(self).wf(),
        ensures
            final(self).wf(),
            old(self)@.len() == 0 ==> popped is None && final(self)@ == old(self)@
                && final(self).length == 0,
            old(self)@.len() > 0 ==> popped == Some(old(self)@.first())
                && final(self)@ == old(self)@.drop_first()
                && final(self).length == old(self).length - 1,
    {
        match self.head {
            None => None,
            Some(h) => {
                proof {
                    assert(old(self).chain@[0] == h);
                }
                let slot = &mut self.nodes[h];
                let taken = slot.take();
                let node = taken.unwrap();
                match node.next {
                    Some(nx) => {
                        self.head = Some(nx);
                    },
                    None => {
                        self.head = None;
                        self.tail = None;
                    },
                }
                self.length = self.length - 1;
                proof {
                    self.chain@ = old(self).chain@.drop_first();
                    assert(self@ =~= old(self)@.drop_first());
                }
                Some(node.value)
            },
        }
    }
}

} // verus!
