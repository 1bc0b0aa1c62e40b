//! The list handle and its four end mutators.

use vstd::prelude::*;

verus! {

/// What `push_front` does to the abstract contents of a list.
pub open spec fn spec_push_front<T>(s: Seq<T>, e: T) -> Seq<T> {
    seq![e] + s
}

/// What `push_back` does to the abstract contents of a list.
pub open spec fn spec_push_back<T>(s: Seq<T>, e: T) -> Seq<T> {
    s.push(e)
}

/// The value observed by `pop_front`: absent exactly on an empty list.
pub open spec fn spec_front<T>(s: Seq<T>) -> Option<T> {
    if s.len() == 0 {
        None
    } else {
        Some(s[0])
    }
}

/// The value observed by `pop_back`: absent exactly on an empty list.
pub open spec fn spec_back<T>(s: Seq<T>) -> Option<T> {
    if s.len() == 0 {
        None
    } else {
        Some(s.last())
    }
}

/// What `pop_front` does to the abstract contents: an empty list is left
/// unchanged, otherwise the first element is removed.
pub open spec fn spec_pop_front<T>(s: Seq<T>) -> Seq<T> {
    if s.len() == 0 {
        s
    } else {
        s.drop_first()
    }
}

/// What `pop_back` does to the abstract contents: an empty list is left
/// unchanged, otherwise the last element is removed.
pub open spec fn spec_pop_back<T>(s: Seq<T>) -> Seq<T> {
    if s.len() == 0 {
        s
    } else {
        s.drop_last()
    }
}

/// One arena slot. A slot holding a node has `elem` present; `next` is the
/// owning forward link and `prev` the non-owning backward reference, both by
/// arena index. A retired slot has no element and reuses `next` to thread the
/// free list.
struct Node<T> {
    elem: Option<T>,
    next: Option<usize>,
    prev: Option<usize>,
}

/// A doubly linked list over an arena of slots.
///
/// `head` owns the forward chain (transitively, through each node's `next`),
/// `tail` is a non-owning reference to the last node, and `free_head` leads a
/// stack of retired slots awaiting reuse. The ghost sequences `live` and
/// `free` record the arena indices of the chain (front to back) and of the
/// free stack (top first).
pub struct List<T> {
    arena: Vec<Node<T>>,
    head: Option<usize>,
    tail: Option<usize>,
    free_head: Option<usize>,
    live: Ghost<Seq<usize>>,
    free: Ghost<Seq<usize>>,
}

impl<T> List<T> {
    /// The invariants of the forward chain: every live slot holds an element,
    /// the chain visits each live slot exactly once, each node's forward link
    /// owns its successor and ends in "no next" at the tail, each backward
    /// reference names the predecessor and is "no previous" at the head, and
    /// the handle's `head`/`tail` are none exactly when the list is empty.
    closed spec fn chain_wf(&self) -> bool {
        &&& self.live@.no_duplicates()
        &&& forall|i: int|
            0 <= i < self.live@.len() ==> {
                let n = (#[trigger] self.live@[i]) as int;
                &&& n < self.arena@.len()
                &&& self.arena@[n].elem is Some
                &&& self.arena@[n].next == (if i + 1 == self.live@.len() {
                    None::<usize>
                } else {
                    Some(self.live@[i + 1])
                })
                &&& self.arena@[n].prev == (if i == 0 {
                    None::<usize>
                } else {
                    Some(self.live@[i - 1])
                })
            }
        &&& self.head == (if self.live@.len() == 0 {
            None::<usize>
        } else {
            Some(self.live@[0])
        })
        &&& self.tail == (if self.live@.len() == 0 {
            None::<usize>
        } else {
            Some(self.live@.last())
        })
    }

    /// The invariants of the free stack: every freed slot holds no element,
    /// appears once, threads to the next freed slot through `next`, and
    /// `free_head` names its top.
    closed spec fn free_wf(&self) -> bool {
        &&& self.free@.no_duplicates()
        &&& forall|i: int|
            0 <= i < self.free@.len() ==> {
                let n = (#[trigger] self.free@[i]) as int;
                &&& n < self.arena@.len()
                &&& self.arena@[n].elem is None
                &&& self.arena@[n].next == (if i + 1 == self.free@.len() {
                    None::<usize>
                } else {
                    Some(self.free@[i + 1])
                })
            }
        &&& self.free_head == (if self.free@.len() == 0 {
            None::<usize>
        } else {
            Some(self.free@[0])
        })
    }

    /// Well-formedness of the whole handle. Established by `new` and
    /// preserved by every mutator.
    pub closed spec fn wf(&self) -> bool {
        &&& self.chain_wf()
        &&& self.free_wf()
    }

    /// Constructs an empty list.
    pub fn new() -> (l: List<T>)
        ensures
            l.wf(),
            l@ == Seq::<T>::empty(),
    {
        let l = List {
            arena: Vec::new(),
            head: None,
            tail: None,
            free_head: None,
            live: Ghost(Seq::empty()),
            free: Ghost(Seq::empty()),
        };
        proof {
            assert(l@ =~= Seq::<T>::empty());
        }
        l
    }

    /// Creates a node for `e` in the arena, reusing the top of the free
    /// stack when one is available and growing the arena otherwise. The new
    /// slot is not yet part of the chain: it is neither live nor free, and
    /// everything the chain invariant speaks of is left untouched.
    fn new_node(&mut self, e: T) -> (idx: usize)
        requires
            old(self).wf(),
        ensures
            final(self).wf(),
            idx < final(self).arena@.len(),
            final(self).arena@[idx as int].elem == Some(e),
            final(self).arena@[idx as int].next == None::<usize>,
            final(self).arena@[idx as int].prev == None::<usize>,
            final(self).live == old(self).live,
            final(self).head == old(self).head,
            final(self).tail == old(self).tail,
            forall|i: int|
                0 <= i < old(self).live@.len() ==> final(self).arena@[(
                #[trigger] old(self).live@[i]) as int] == old(self).arena@[old(self).live@[i] as int],
            forall|i: int| 0 <= i < final(self).live@.len() ==> (#[trigger] final(self).live@[i]) != idx,
            forall|i: int| 0 <= i < final(self).free@.len() ==> (#[trigger] final(self).free@[i]) != idx,
            final(self)@ == old(self)@,
    {
        let idx: usize = match self.free_head {
            Some(f) => {
                let node = &mut self.arena[f];
                node.elem = Some(e);
                let next_free = node.next;
                node.next = None;
                node.prev = None;
                self.free_head = next_free;
                proof {
                    self.free@ = self.free@.drop_first();
                }
                f
            },
            None => {
                let idx = self.arena.len();
                self.arena.push(Node { elem: Some(e), next: None, prev: None });
                idx
            },
        };
        proof {
            assert(self@ =~= old(self)@);
        }
        idx
    }

    /// Inserts `elem` at the front of the list in O(1).
    ///
    /// A fresh node takes `elem`; if the list was non-empty the node's
    /// forward link takes over the old head and the old head's backward
    /// reference is pointed at the node; if it was empty the node becomes the
    /// tail as well. The only failure mode is allocation exhaustion, which
    /// aborts rather than being masked.
    pub fn push_front(&mut self, elem: T)
        requires
            old(self).wf(),
        ensures
            final(self).wf(),
            final(self)@ == spec_push_front(old(self)@, elem),
    {
        let idx = self.new_node(elem);
        match self.head {
            Some(h) => {
                let node = &mut self.arena[idx];
                node.next = Some(h);
                let old_head = &mut self.arena[h];
                old_head.prev = Some(idx);
                self.head = Some(idx);
            },
            None => {
                self.head = Some(idx);
                self.tail = Some(idx);
            },
        }
        proof {
            self.live@ = seq![idx] + self.live@;
            assert(self@ =~= spec_push_front(old(self)@, elem));
        }
    }

    /// Inserts `elem` at the back of the list in O(1).
    ///
    /// Symmetric to `push_front`: a fresh node takes `elem`; if the list was
    /// non-empty the node's backward reference is pointed at the old tail and
    /// the old tail's forward link takes over the node; if it was empty the
    /// node becomes the head as well.
    pub fn push_back(&mut self, elem: T)
        requires
            old(self).wf(),
        ensures
            final(self).wf(),
            final(self)@ == spec_push_back(old(self)@, elem),
    {
        let idx = self.new_node(elem);
        match self.tail {
            Some(t) => {
                let node = &mut self.arena[idx];
                node.prev = Some(t);
                let old_tail = &mut self.arena[t];
                old_tail.next = Some(idx);
                self.tail = Some(idx);
            },
            None => {
                self.head = Some(idx);
                self.tail = Some(idx);
            },
        }
        proof {
            self.live@ = self.live@.push(idx);
            assert(self@ =~= spec_push_back(old(self)@, elem));
        }
    }

    /// Removes and returns the front element in O(1); absent on an empty
    /// list, which is left unchanged.
    ///
    /// The head node's element is taken out and its slot retired onto the
    /// free stack. If a successor exists its backward reference is cleared
    /// and it becomes the new head; otherwise the tail reference is cleared
    /// too and the list becomes empty.
    #[verifier::rlimit(50)]
    pub fn pop_front(&mut self) -> (r: Option<T>)
        requires
            old(self).wf(),
        ensures
            final(self).wf(),
            r == spec_front(old(self)@),
            final(self)@ == spec_pop_front(old(self)@),
            old(self)@.len() == 0 ==> r is None && final(self)@ == old(self)@,
    {
        match self.head {
            None => None,
            Some(h) => {
                let free_top = self.free_head;
                let node = &mut self.arena[h];
                let e = node.elem.take();
                let next = node.next;
                node.next = free_top;
                node.prev = None;
                match next {
                    Some(n) => {
                        let new_head = &mut self.arena[n];
                        new_head.prev = None;
                        self.head = Some(n);
                    },
                    None => {
                        self.head = None;
                        self.tail = None;
                    },
                }
                self.free_head = Some(h);
                proof {
                    let l0 = old(self).live@;
                    let f0 = old(self).free@;
                    let a0 = old(self).arena@;
                    let l1 = l0.drop_first();
                    let f1 = seq![h] + f0;
                    assert(h == l0[0]);
                    self.live@ = l1;
                    self.free@ = f1;
                    assert forall|i: int| 0 <= i < f0.len() implies (#[trigger] f0[i]) != h by {
                        assert(a0[f0[i] as int].elem is None);
                    }
                    assert(f1.no_duplicates());
                    assert(l1.no_duplicates());
                    assert forall|i: int|
                        0 <= i < f1.len() implies {
                            let n = (#[trigger] f1[i]) as int;
                            &&& n < self.arena@.len()
                            &&& self.arena@[n].elem is None
                            &&& self.arena@[n].next == (if i + 1 == f1.len() {
                                None::<usize>
                            } else {
                                Some(f1[i + 1])
                            })
                        } by {
                        if i > 0 {
                            assert(f1[i] == f0[i - 1]);
                            assert(a0[f0[i - 1] as int].elem is None);
                            if l0.len() > 1 {
                                assert(a0[l0[1] as int].elem is Some);
                            }
                        }
                    }
                    assert forall|i: int|
                        0 <= i < l1.len() implies {
                            let n = (#[trigger] l1[i]) as int;
                            &&& n < self.arena@.len()
                            &&& self.arena@[n].elem is Some
                            &&& self.arena@[n].next == (if i + 1 == l1.len() {
                                None::<usize>
                            } else {
                                Some(l1[i + 1])
                            })
                            &&& self.arena@[n].prev == (if i == 0 {
                                None::<usize>
                            } else {
                                Some(l1[i - 1])
                            })
                        } by {
                        assert(l1[i] == l0[i + 1]);
                        assert(l0[i + 1] != h);
                        if i + 1 < l1.len() {
                            assert(l1[i + 1] == l0[i + 2]);
                        }
                        if i > 0 {
                            assert(l1[i - 1] == l0[i]);
                        }
                    }
                    assert forall|i: int|
                        0 <= i < l1.len() implies self.arena@[(#[trigger] l1[i]) as int].elem == a0[
                        l0[i + 1] as int].elem by {
                        assert(l1[i] == l0[i + 1]);
                        assert(l0[i + 1] != h);
                    }
                    assert(self@ =~= spec_pop_front(old(self)@));
                }
                e
            },
        }
    }

    /// Removes and returns the back element in O(1); absent on an empty
    /// list, which is left unchanged.
    ///
    /// The tail node's element is taken out and its slot retired onto the
    /// free stack. If the tail node had a predecessor, that predecessor's
    /// forward link is released and it becomes the new tail; otherwise the
    /// sole node leaves and both ends are cleared.
    #[verifier::rlimit(50)]
    pub fn pop_back(&mut self) -> (r: Option<T>)
        requires
            old(self).wf(),
        ensures
            final(self).wf(),
            r == spec_back(old(self)@),
            final(self)@ == spec_pop_back(old(self)@),
            old(self)@.len() == 0 ==> r is None && final(self)@ == old(self)@,
    {
        match self.tail {
            None => None,
            Some(t) => {
                let free_top = self.free_head;
                let node = &mut self.arena[t];
                let e = node.elem.take();
                let prev = node.prev;
                node.next = free_top;
                node.prev = None;
                match prev {
                    Some(p) => {
                        let new_tail = &mut self.arena[p];
                        new_tail.next = None;
                        self.tail = Some(p);
                    },
                    None => {
                        self.head = None;
                        self.tail = None;
                    },
                }
                self.free_head = Some(t);
                proof {
                    let l0 = old(self).live@;
                    let f0 = old(self).free@;
                    let a0 = old(self).arena@;
                    let l1 = l0.drop_last();
                    let f1 = seq![t] + f0;
                    assert(t == l0.last());
                    self.live@ = l1;
                    self.free@ = f1;
                    assert forall|i: int| 0 <= i < f0.len() implies (#[trigger] f0[i]) != t by {
                        assert(a0[f0[i] as int].elem is None);
                    }
                    assert(f1.no_duplicates());
                    assert(l1.no_duplicates());
                    assert forall|i: int|
                        0 <= i < f1.len() implies {
                            let n = (#[trigger] f1[i]) as int;
                            &&& n < self.arena@.len()
                            &&& self.arena@[n].elem is None
                            &&& self.arena@[n].next == (if i + 1 == f1.len() {
                                None::<usize>
                            } else {
                                Some(f1[i + 1])
                            })
                        } by {
                        if i > 0 {
                            assert(f1[i] == f0[i - 1]);
                            assert(a0[f0[i - 1] as int].elem is None);
                            if l0.len() > 1 {
                                assert(a0[l0[l0.len() - 2] as int].elem is Some);
                            }
                        }
                    }
                    assert forall|i: int|
                        0 <= i < l1.len() implies {
                            let n = (#[trigger] l1[i]) as int;
                            &&& n < self.arena@.len()
                            &&& self.arena@[n].elem is Some
                            &&& self.arena@[n].next == (if i + 1 == l1.len() {
                                None::<usize>
                            } else {
                                Some(l1[i + 1])
                            })
                            &&& self.arena@[n].prev == (if i == 0 {
                                None::<usize>
                            } else {
                                Some(l1[i - 1])
                            })
                        } by {
                        assert(l1[i] == l0[i]);
                        assert(l0[i] != t);
                        if i + 1 < l1.len() {
                            assert(l1[i + 1] == l0[i + 1]);
                        }
                        if i > 0 {
                            assert(l1[i - 1] == l0[i - 1]);
                        }
                    }
                    assert forall|i: int|
                        0 <= i < l1.len() implies self.arena@[(#[trigger] l1[i]) as int].elem == a0[
                        l0[i] as int].elem by {
                        assert(l1[i] == l0[i]);
                        assert(l0[i] != t);
                    }
                    assert(self@ =~= spec_pop_back(old(self)@));
                }
                e
            },
        }
    }

}

impl<T> Default for List<T> {
    /// An empty list, exactly as `new` constructs it.
    fn default() -> (l: Self)
        ensures
            l.wf(),
            l@ == Seq::<T>::empty(),
    {
        List::new()
    }
}

impl<T> View for List<T> {
    type V = Seq<T>;

    /// The abstract contents: the elements of the chain, front to back.
    closed spec fn view(&self) -> Seq<T> {
        Seq::new(self.live@.len(), |i: int| self.arena@[self.live@[i] as int].elem.unwrap())
    }
}

} // verus!
