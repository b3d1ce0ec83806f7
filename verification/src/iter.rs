use vstd::prelude::*;

use crate::epoch::{Epoch, NoEpoch};
use crate::index::LarivIndex;
use crate::lariv::{lemma_elements_behind_update, Lariv};
use crate::option::Guard;

verus! {

/// Walks the elements of a Lariv in place order: node by node, and in each node slot by
/// slot.
pub struct Iter<'a, T, E: Epoch> {
    buf: &'a Lariv<T, E>,
    current_node: usize,
    next_index: usize,
    yielded: Ghost<Seq<T>>,
}

/// Walks the elements of a Lariv in place order with exclusive access. It keeps only its
/// position; each step is given the Lariv it walks and lends out one element of it.
pub struct IterMut<T> {
    current_node: usize,
    next_index: usize,
    yielded: Ghost<Seq<T>>,
    total: Ghost<Seq<T>>,
}

/// Takes the elements out of a Lariv in place order.
pub struct IntoIter<T, E: Epoch> {
    buf: Lariv<T, E>,
    current_node: usize,
    next_index: usize,
    yielded: Ghost<Seq<T>>,
    total: Ghost<Seq<T>>,
}

impl<T, E: Epoch> Lariv<T, E> {
    /// A walk over the elements, from the first slot of the first node.
    pub fn iter<'a>(&'a self) -> (r: Iter<'a, T, E>)
        requires
            self.wf(),
        ensures
            r.wf(),
            r.spec_buf() == *self,
            r.spec_pos() == (0int, 0int),
            r.spec_yielded() == Seq::<T>::empty(),
    {
        proof {
            self.lemma_wf_shaped();
        }
        let r = Iter { buf: self, current_node: 0, next_index: 0, yielded: Ghost(Seq::empty()) };
        assert(r.yielded@ + self.elements_from(0, 0) =~= self.elements());
        r
    }

    /// A walk with exclusive access over the elements, from the first slot of the first
    /// node.
    pub fn iter_mut(&self) -> (r: IterMut<T>)
        requires
            self.wf(),
        ensures
            r.fits(*self),
            r.spec_pos() == (0int, 0int),
            r.spec_yielded() == Seq::<T>::empty(),
            r.spec_total() == self.elements(),
    {
        proof {
            self.lemma_wf_shaped();
        }
        let r = IterMut {
            current_node: 0,
            next_index: 0,
            yielded: Ghost(Seq::empty()),
            total: Ghost(self.elements()),
        };
        assert(r.yielded@ + self.elements_from(0, 0) =~= self.elements());
        r
    }

    /// Turns the Lariv into a walk that takes its elements out, from the first slot of
    /// the first node.
    pub fn into_iter(self) -> (r: IntoIter<T, E>)
        requires
            self.wf(),
        ensures
            r.wf(),
            r.spec_buf() == self,
            r.spec_pos() == (0int, 0int),
            r.spec_yielded() == Seq::<T>::empty(),
            r.spec_total() == self.elements(),
    {
        proof {
            self.lemma_wf_shaped();
        }
        let ghost total = self.elements();
        let r = IntoIter {
            buf: self,
            current_node: 0,
            next_index: 0,
            yielded: Ghost(Seq::empty()),
            total: Ghost(total),
        };
        assert(r.yielded@ + r.buf.elements_from(0, 0) =~= total);
        r
    }
}

impl<'a, T, E: Epoch> Iter<'a, T, E> {
    pub closed spec fn spec_buf(&self) -> Lariv<T, E> {
        *self.buf
    }

    /// The elements handed out so far, in order.
    pub closed spec fn spec_yielded(&self) -> Seq<T> {
        self.yielded@
    }

    /// The slot from which the walk goes on.
    pub closed spec fn spec_pos(&self) -> (int, int) {
        (self.current_node as int, self.next_index as int)
    }

    /// The walk is over a well-formed Lariv, and what it handed out followed by what is
    /// left from its position is all the elements, in slot order.
    pub closed spec fn wf(&self) -> bool {
        &&& self.buf.wf()
        &&& self.current_node < self.buf.spec_node_num()
        &&& self.next_index <= self.buf.spec_node_capacity()
        &&& self.yielded@ + self.buf.elements_from(self.current_node as int, self.next_index as int)
            == self.buf.elements()
    }

    /// The next element: the first one at or after the walk's position. When there is
    /// none, the walk stays at the end of the last node. Successive calls hand out every
    /// element once, in slot order: when one returns `None`, what was handed out is
    /// exactly `elements()` of the Lariv.
    pub fn next(&mut self) -> (r: Option<Guard<'a, T, E>>)
        requires
            old(self).wf(),
        ensures
            final(self).wf(),
            final(self).spec_buf() == old(self).spec_buf(),
            final(self).spec_yielded() == old(self).spec_yielded() + (match r {
                Some(g) => seq![g.spec_value()],
                None => Seq::<T>::empty(),
            }),
            r is None ==> final(self).spec_yielded() == old(self).spec_buf().elements(),
            ({
                let b = old(self).spec_buf();
                let (n0, i0) = old(self).spec_pos();
                if b.has_from(n0, i0, true) {
                    let p = b.first_from(n0, i0, true);
                    &&& r matches Some(g)
                    &&& g.spec_value() == b@[p.0][p.1]->0
                    &&& g.spec_guard() == b.epochs()[p.0][p.1]
                    &&& final(self).spec_pos() == (p.0, p.1 + 1)
                } else {
                    &&& r is None
                    &&& final(self).spec_pos() == (b.spec_node_num() - 1, b.spec_node_capacity() as int)
                }
            }),
    {
        let buf: &'a Lariv<T, E> = self.buf;
        proof {
            buf.lemma_wf_shaped();
        }
        match buf.find(self.current_node, self.next_index, true) {
            Some(p) => {
                let (n, i) = p;
                proof {
                    buf.lemma_first_from(old(self).current_node as int, old(self).next_index as int, n as int, i as int, true);
                    assert(buf.slot_is(n as int, i as int, true));
                    buf.lemma_elements_walk(old(self).current_node as int, old(self).next_index as int);
                }
                self.current_node = n;
                self.next_index = i + 1;
                let r = buf.get(LarivIndex { node: n as u64, index: i as u64, epoch: NoEpoch });
                proof {
                    self.yielded = Ghost(self.yielded@.push(buf@[n as int][i as int]->0));
                    assert(self.yielded@ + buf.elements_from(n as int, i + 1) =~= old(self).yielded@
                        + buf.elements_from(old(self).current_node as int, old(self).next_index as int));
                    assert(old(self).yielded@ + seq![buf@[n as int][i as int]->0] =~= self.yielded@);
                }
                r
            },
            None => {
                proof {
                    buf.lemma_elements_walk(old(self).current_node as int, old(self).next_index as int);
                }
                self.current_node = buf.node_num() - 1;
                self.next_index = buf.node_capacity();
                proof {
                    let last = self.current_node as int;
                    assert(buf.elements_from(last + 1, 0) == Seq::<T>::empty());
                    assert(buf.elements_from(last, self.next_index as int) == buf.elements_from(last + 1, 0));
                    assert(self.yielded@ + buf.elements_from(last, self.next_index as int) =~= self.yielded@);
                    assert(old(self).yielded@ + Seq::<T>::empty() =~= old(self).yielded@);
                }
                None
            },
        }
    }
}


impl<T> IterMut<T> {
    /// The slot from which the walk goes on.
    pub closed spec fn spec_pos(&self) -> (int, int) {
        (self.current_node as int, self.next_index as int)
    }

    /// The elements lent out so far, as they were when lent, in order.
    pub closed spec fn spec_yielded(&self) -> Seq<T> {
        self.yielded@
    }

    /// The elements of the Lariv when the walk began, in slot order.
    pub closed spec fn spec_total(&self) -> Seq<T> {
        self.total@
    }

    /// The position stands within `buf`, which is well formed, and what was lent out
    /// followed by the elements of `buf` from the position is all that the walk began
    /// with.
    pub closed spec fn fits<E: Epoch>(&self, buf: Lariv<T, E>) -> bool {
        &&& buf.wf()
        &&& self.current_node < buf.spec_node_num()
        &&& self.next_index <= buf.spec_node_capacity()
        &&& self.yielded@ + buf.elements_from(self.current_node as int, self.next_index as int)
            == self.total@
    }

    /// Exclusive access to the next element of `buf`: the first one at or after the
    /// walk's position. When there is none, the walk stays at the end of the last node.
    /// Successive calls lend out every element once, in slot order: when one returns
    /// `None`, what was lent out is exactly the elements the walk began with.
    pub fn next<'b, E: Epoch>(&mut self, buf: &'b mut Lariv<T, E>) -> (r: Option<&'b mut T>)
        requires
            old(self).fits(*old(buf)),
        ensures
            final(self).fits(*final(buf)),
            final(self).spec_total() == old(self).spec_total(),
            final(self).spec_yielded() == old(self).spec_yielded() + (match r {
                Some(e) => seq![*e],
                None => Seq::<T>::empty(),
            }),
            r is None ==> final(self).spec_yielded() == old(self).spec_total(),
            Lariv::same_bookkeeping(*old(buf), *final(buf)),
            final(buf).spec_node_num() == old(buf).spec_node_num(),
            final(buf).spec_threshold() == old(buf).spec_threshold(),
            ({
                let b = *old(buf);
                let (n0, i0) = old(self).spec_pos();
                if b.has_from(n0, i0, true) {
                    let p = b.first_from(n0, i0, true);
                    &&& r matches Some(e)
                    &&& *e == b@[p.0][p.1]->0
                    &&& final(buf)@ == b@.update(p.0, b@[p.0].update(p.1, Some(*final(e))))
                    &&& final(self).spec_pos() == (p.0, p.1 + 1)
                } else {
                    &&& r is None
                    &&& final(buf)@ == b@
                    &&& final(self).spec_pos() == (b.spec_node_num() - 1, b.spec_node_capacity() as int)
                }
            }),
    {
        proof {
            buf.lemma_wf_shaped();
            buf.lemma_elements_walk(self.current_node as int, self.next_index as int);
        }
        match buf.find(self.current_node, self.next_index, true) {
            Some(p) => {
                let (n, i) = p;
                proof {
                    buf.lemma_first_from(old(self).current_node as int, old(self).next_index as int, n as int, i as int, true);
                    assert(buf.slot_is(n as int, i as int, true));
                    lemma_elements_behind_update(buf@, buf.spec_node_capacity(), n as int, i as int);
                }
                self.current_node = n;
                self.next_index = i + 1;
                proof {
                    self.yielded = Ghost(self.yielded@.push(buf@[n as int][i as int]->0));
                    assert(self.yielded@ + buf.elements_from(n as int, i + 1) =~= self.total@);
                    assert(old(self).yielded@ + seq![buf@[n as int][i as int]->0] =~= self.yielded@);
                }
                buf.slot_mut(n, i)
            },
            None => {
                self.current_node = buf.node_num() - 1;
                self.next_index = buf.node_capacity();
                proof {
                    let last = self.current_node as int;
                    assert(buf.elements_from(last + 1, 0) == Seq::<T>::empty());
                    assert(buf.elements_from(last, self.next_index as int) == buf.elements_from(last + 1, 0));
                    assert(self.yielded@ + buf.elements_from(last, self.next_index as int) =~= self.yielded@);
                    assert(old(self).yielded@ + Seq::<T>::empty() =~= old(self).yielded@);
                }
                None
            },
        }
    }
}

impl<T, E: Epoch> IntoIter<T, E> {
    pub closed spec fn spec_buf(&self) -> Lariv<T, E> {
        self.buf
    }

    /// The elements taken out so far, in order.
    pub closed spec fn spec_yielded(&self) -> Seq<T> {
        self.yielded@
    }

    /// The elements of the Lariv when the walk began, in slot order.
    pub closed spec fn spec_total(&self) -> Seq<T> {
        self.total@
    }

    /// The slot from which the walk goes on.
    pub closed spec fn spec_pos(&self) -> (int, int) {
        (self.current_node as int, self.next_index as int)
    }

    /// The walk is over a well-formed Lariv, and what it took out followed by what is
    /// left from its position is all that it began with.
    pub closed spec fn wf(&self) -> bool {
        &&& self.buf.wf()
        &&& self.current_node < self.buf.spec_node_num()
        &&& self.next_index <= self.buf.spec_node_capacity()
        &&& self.yielded@ + self.buf.elements_from(self.current_node as int, self.next_index as int)
            == self.total@
    }

    /// Takes out the next element: the first one at or after the walk's position. When
    /// there is none, the walk stays at the end of the last node. Successive calls take
    /// out every element once, in slot order: when one returns `None`, what was taken out
    /// is exactly the elements the walk began with.
    pub fn next(&mut self) -> (r: Option<T>)
        requires
            old(self).wf(),
        ensures
            final(self).wf(),
            final(self).spec_total() == old(self).spec_total(),
            final(self).spec_yielded() == old(self).spec_yielded() + (match r {
                Some(v) => seq![v],
                None => Seq::<T>::empty(),
            }),
            r is None ==> final(self).spec_yielded() == old(self).spec_total(),
            ({
                let b = old(self).spec_buf();
                let (n0, i0) = old(self).spec_pos();
                if b.has_from(n0, i0, true) {
                    let p = b.first_from(n0, i0, true);
                    &&& r == b@[p.0][p.1]
                    &&& r is Some
                    &&& final(self).spec_buf()@ == b@.update(p.0, b@[p.0].update(p.1, None))
                    &&& final(self).spec_pos() == (p.0, p.1 + 1)
                } else {
                    &&& r is None
                    &&& final(self).spec_buf()@ == b@
                    &&& final(self).spec_pos() == (b.spec_node_num() - 1, b.spec_node_capacity() as int)
                }
            }),
            final(self).spec_buf().spec_node_num() == old(self).spec_buf().spec_node_num(),
            Lariv::same_bookkeeping(old(self).spec_buf(), final(self).spec_buf()),
            final(self).spec_buf().spec_threshold() == old(self).spec_buf().spec_threshold(),
    {
        proof {
            self.buf.lemma_wf_shaped();
            self.buf.lemma_elements_walk(self.current_node as int, self.next_index as int);
        }
        match self.buf.find(self.current_node, self.next_index, true) {
            Some(p) => {
                let (n, i) = p;
                proof {
                    self.buf.lemma_first_from(old(self).current_node as int, old(self).next_index as int, n as int, i as int, true);
                    assert(self.buf.slot_is(n as int, i as int, true));
                    lemma_elements_behind_update(self.buf@, self.buf.spec_node_capacity(), n as int, i as int);
                }
                let ghost before = self.buf;
                self.current_node = n;
                self.next_index = i + 1;
                let r = self.buf.take_slot(n, i);
                proof {
                    assert(self.buf.elements_from(n as int, i + 1) == before.elements_from(n as int, i + 1));
                    self.yielded = Ghost(self.yielded@.push(r->0));
                    assert(self.yielded@ + self.buf.elements_from(n as int, i + 1) =~= self.total@);
                    assert(old(self).yielded@ + seq![r->0] =~= self.yielded@);
                }
                r
            },
            None => {
                self.current_node = self.buf.node_num() - 1;
                self.next_index = self.buf.node_capacity();
                proof {
                    let last = self.current_node as int;
                    assert(self.buf.elements_from(last + 1, 0) == Seq::<T>::empty());
                    assert(self.buf.elements_from(last, self.next_index as int) == self.buf.elements_from(last + 1, 0));
                    assert(self.yielded@ + self.buf.elements_from(last, self.next_index as int) =~= self.yielded@);
                    assert(old(self).yielded@ + Seq::<T>::empty() =~= old(self).yielded@);
                }
                None
            },
        }
    }
}

} // verus!
