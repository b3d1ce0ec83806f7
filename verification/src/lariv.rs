use vstd::prelude::*;

use crate::epoch::{Epoch, LarivEpoch, NoEpoch};
use crate::index::LarivIndex;
use crate::option::{AtomicOptionTag, Guard};

verus! {

/// One buffer of the Lariv: `cap` slots, each an element place with its tag.
struct LarivNode<T, E: Epoch> {
    metadata: Vec<AtomicOptionTag<E>>,
    data: Vec<Option<T>>,
    nth: usize,
}

impl<T, E: Epoch> LarivNode<T, E> {
    spec fn wf(&self, nth: int, cap: int) -> bool {
        &&& self.metadata@.len() == cap
        &&& self.data@.len() == cap
        &&& self.nth == nth
        &&& forall|i: int| 0 <= i < cap ==> #[trigger] self.metadata@[i].pairs_with(self.data@[i])
    }

    spec fn epochs(&self) -> Seq<E> {
        self.metadata@.map_values(|m: AtomicOptionTag<E>| m.spec_epoch())
    }

    /// A node of `cap` empty slots, all at the first epoch.
    fn new_empty(cap: usize, nth: usize) -> (r: Self)
        ensures
            r.wf(nth as int, cap as int),
            r.data@ == Seq::new(cap as nat, |j: int| None::<T>),
            r.epochs() == Seq::new(cap as nat, |j: int| E::spec_new(0)),
    {
        let mut metadata: Vec<AtomicOptionTag<E>> = Vec::new();
        let mut data: Vec<Option<T>> = Vec::new();
        let mut j: usize = 0;
        while j < cap
            invariant
                j <= cap,
                metadata@.len() == j,
                data@ == Seq::new(j as nat, |k: int| None::<T>),
                forall|k: int| 0 <= k < j ==> !(#[trigger] metadata@[k]).spec_tag() && metadata@[k].spec_epoch() == E::spec_new(0),
            decreases cap - j,
        {
            metadata.push(AtomicOptionTag::none());
            data.push(None);
            j = j + 1;
            assert(data@ =~= Seq::new(j as nat, |k: int| None::<T>));
        }
        let r = LarivNode { metadata, data, nth };
        assert(r.epochs() =~= Seq::new(cap as nat, |j: int| E::spec_new(0)));
        r
    }
}

/// # Linked Atomic Random Insert Vector.
///
/// A vector-like store whose elements can be removed at any place without moving the
/// others. It is made of nodes of a fixed number of slots each; an element is written
/// into a free slot found from a cursor onwards, the cursor wraps back to the first node
/// when enough elements were removed since it last did, and otherwise a new node is
/// added behind the last one. Existing elements never move.
///
/// Each slot keeps an epoch. With `NoEpoch` (the default) it costs nothing; with
/// `LarivEpoch` the `*_with_epoch` functions check that the element reached is the one
/// that the [`LarivIndex`] was handed out for.
pub struct Lariv<T, E: Epoch = NoEpoch> {
    nodes: Vec<LarivNode<T, E>>,
    cursor: usize,
    cursor_node: usize,
    cap: usize,
    allocation_threshold: isize,
}

/// Lexicographic order on (node, place) positions: `(a, b) <= (c, d)`.
pub open spec fn lex_le(a: int, b: int, c: int, d: int) -> bool {
    a < c || (a == c && b <= d)
}

/// Lexicographic order on (node, place) positions: `(a, b) < (c, d)`.
pub open spec fn lex_lt(a: int, b: int, c: int, d: int) -> bool {
    a < c || (a == c && b < d)
}

/// Thirty percent of the slots of `nodes` nodes of `cap` slots, rounded down.
pub open spec fn threshold_for(nodes: int, cap: int) -> int {
    nodes * cap * 3 / 10
}

/// The threshold after one more removal: one less, wrapping at `isize::MIN`.
pub open spec fn dec_threshold(t: int) -> int {
    if t == isize::MIN {
        isize::MAX as int
    } else {
        t - 1
    }
}

/// The elements in the slots at or after `(n, i)` of `slots` (nodes of `cap` slots), in
/// slot order.
pub open spec fn elements_in<T>(slots: Seq<Seq<Option<T>>>, cap: nat, n: int, i: int) -> Seq<T>
    decreases slots.len() - n, cap - i,
{
    if n < 0 || n >= slots.len() {
        Seq::empty()
    } else if i < 0 {
        elements_in(slots, cap, n, 0)
    } else if i >= cap {
        elements_in(slots, cap, n + 1, 0)
    } else {
        let rest = elements_in(slots, cap, n, i + 1);
        match slots[n][i] {
            Some(v) => seq![v] + rest,
            None => rest,
        }
    }
}

/// The elements from `(n, i)` on depend only on the slots at or after `(n, i)`.
pub proof fn lemma_elements_agree<T>(a: Seq<Seq<Option<T>>>, b: Seq<Seq<Option<T>>>, cap: nat, n: int, i: int)
    requires
        a.len() == b.len(),
        forall|x: int, y: int|
            0 <= x < a.len() && 0 <= y < cap && lex_le(n, i, x, y) ==> #[trigger] a[x][y] == b[x][y],
    ensures
        elements_in(a, cap, n, i) == elements_in(b, cap, n, i),
    decreases a.len() - n, cap - i,
{
    if n < 0 || n >= a.len() {
    } else if i < 0 {
        lemma_elements_agree(a, b, cap, n, 0);
    } else if i >= cap {
        lemma_elements_agree(a, b, cap, n + 1, 0);
    } else {
        assert(a[n][i] == b[n][i]);
        lemma_elements_agree(a, b, cap, n, i + 1);
    }
}

/// Changing slot `(n, i)` leaves the elements after it as they were.
pub proof fn lemma_elements_behind_update<T>(s: Seq<Seq<Option<T>>>, cap: nat, n: int, i: int)
    requires
        0 <= n < s.len(),
        0 <= i < cap,
        s[n].len() == cap,
    ensures
        forall|o: Option<T>|
            #[trigger] elements_in(s.update(n, s[n].update(i, o)), cap, n, i + 1) == elements_in(s, cap, n, i + 1),
{
    assert forall|o: Option<T>|
        #[trigger] elements_in(s.update(n, s[n].update(i, o)), cap, n, i + 1) == elements_in(s, cap, n, i + 1) by {
        let t = s.update(n, s[n].update(i, o));
        assert forall|x: int, y: int|
            0 <= x < t.len() && 0 <= y < cap && lex_le(n, i + 1, x, y) implies #[trigger] t[x][y] == s[x][y] by {
            if x == n {
                assert(y != i);
            }
        }
        lemma_elements_agree(t, s, cap, n, i + 1);
    }
}

impl<T, E: Epoch> View for Lariv<T, E> {
    /// The slots, node by node: `Some` where an element stands.
    type V = Seq<Seq<Option<T>>>;

    closed spec fn view(&self) -> Seq<Seq<Option<T>>> {
        self.nodes@.map_values(|nd: LarivNode<T, E>| nd.data@)
    }
}

impl<T, E: Epoch> Lariv<T, E> {
    // ---------------------------------------------------------------- model

    /// The epochs of the slots, node by node.
    pub closed spec fn epochs(&self) -> Seq<Seq<E>> {
        self.nodes@.map_values(|nd: LarivNode<T, E>| nd.epochs())
    }

    pub closed spec fn spec_node_capacity(&self) -> nat {
        self.cap as nat
    }

    pub closed spec fn spec_node_num(&self) -> nat {
        self.nodes@.len()
    }

    pub open spec fn spec_capacity(&self) -> nat {
        self.spec_node_num() * self.spec_node_capacity()
    }

    /// The node the cursor stands in.
    pub closed spec fn spec_cursor_node(&self) -> int {
        self.cursor_node as int
    }

    /// The place in the cursor's node from which the next push looks for a free slot.
    pub closed spec fn spec_cursor(&self) -> int {
        self.cursor as int
    }

    /// The allocation threshold: set to 30% of the capacity when the cursor wraps or a
    /// node is added, and lowered by one on each removal.
    pub closed spec fn spec_threshold(&self) -> int {
        self.allocation_threshold as int
    }

    pub closed spec fn wf(&self) -> bool {
        &&& self.cap > 3
        &&& self.nodes@.len() >= 1
        &&& self.nodes@.len() * self.cap <= usize::MAX
        &&& forall|n: int| 0 <= n < self.nodes@.len() ==> (#[trigger] self.nodes@[n]).wf(n, self.cap as int)
        &&& self.cursor_node < self.nodes@.len()
        &&& self.cursor <= self.cap
    }

    /// The shape of the slots: `node_num` nodes of `node_capacity` slots.
    pub open spec fn shaped(&self) -> bool {
        &&& self@.len() == self.spec_node_num()
        &&& self.epochs().len() == self.spec_node_num()
        &&& forall|n: int| 0 <= n < self@.len() ==> (#[trigger] self@[n]).len() == self.spec_node_capacity()
        &&& forall|n: int| 0 <= n < self@.len() ==> (#[trigger] self.epochs()[n]).len() == self.spec_node_capacity()
        &&& 3 < self.spec_node_capacity() <= usize::MAX
        &&& 1 <= self.spec_node_num() <= usize::MAX
        &&& self.spec_capacity() <= usize::MAX
        &&& 0 <= self.spec_cursor_node() < self.spec_node_num()
        &&& 0 <= self.spec_cursor() <= self.spec_node_capacity()
    }

    pub proof fn lemma_wf_shaped(&self)
        requires
            self.wf(),
        ensures
            self.shaped(),
    {
        assert(self.nodes@.len() <= self.nodes@.len() * self.cap) by (nonlinear_arith)
            requires
                self.cap > 3,
        ;
        assert forall|n: int| 0 <= n < self@.len() implies (#[trigger] self@[n]).len() == self.spec_node_capacity() by {
            assert(self.nodes@[n].wf(n, self.cap as int));
        }
        assert forall|n: int| 0 <= n < self@.len() implies (#[trigger] self.epochs()[n]).len() == self.spec_node_capacity() by {
            assert(self.nodes@[n].wf(n, self.cap as int));
        }
    }

    /// Whether `(node, index)` names a slot of this Lariv.
    pub open spec fn in_bounds(&self, node: u64, index: u64) -> bool {
        index < self.spec_node_capacity() && node < self.spec_node_num()
    }

    /// The element at `(node, index)`, if that slot exists and holds one.
    pub open spec fn lookup(&self, node: u64, index: u64) -> Option<T> {
        if self.in_bounds(node, index) {
            self@[node as int][index as int]
        } else {
            None
        }
    }

    /// The epoch of slot `(node, index)`.
    pub open spec fn epoch_at(&self, node: u64, index: u64) -> E {
        self.epochs()[node as int][index as int]
    }

    /// Whether slot `(n, i)` exists and holds an element (`occupied`) or is empty (not
    /// `occupied`).
    pub open spec fn slot_is(&self, n: int, i: int, occupied: bool) -> bool {
        0 <= n < self@.len() && 0 <= i < self.spec_node_capacity() && (self@[n][i] is Some)
            == occupied
    }

    /// Whether slot `(n, i)` exists and is empty.
    pub open spec fn is_free(&self, n: int, i: int) -> bool {
        self.slot_is(n, i, false)
    }

    /// Whether some slot at or after `(n0, i0)` is in the given state.
    pub open spec fn has_from(&self, n0: int, i0: int, occupied: bool) -> bool {
        exists|n: int, i: int| #[trigger] self.slot_is(n, i, occupied) && lex_le(n0, i0, n, i)
    }

    /// `(n, i)` is the first slot at or after `(n0, i0)` in the given state.
    pub open spec fn is_first_from(&self, n0: int, i0: int, n: int, i: int, occupied: bool) -> bool {
        &&& self.slot_is(n, i, occupied)
        &&& lex_le(n0, i0, n, i)
        &&& forall|x: int, y: int|
            lex_le(n0, i0, x, y) && lex_lt(x, y, n, i) ==> !#[trigger] self.slot_is(x, y, occupied)
    }

    /// Whether some slot at or after `(n0, i0)` is empty.
    pub open spec fn has_free_from(&self, n0: int, i0: int) -> bool {
        self.has_from(n0, i0, false)
    }

    /// The first slot at or after `(n0, i0)` in the given state, when there is one.
    pub open spec fn first_from(&self, n0: int, i0: int, occupied: bool) -> (int, int) {
        choose|p: (int, int)| self.is_first_from(n0, i0, p.0, p.1, occupied)
    }


    /// The elements in the slots at or after `(n, i)`, in slot order.
    pub open spec fn elements_from(&self, n: int, i: int) -> Seq<T> {
        elements_in(self@, self.spec_node_capacity(), n, i)
    }

    /// All elements, in slot order: node by node, and in each node slot by slot.
    pub open spec fn elements(&self) -> Seq<T> {
        self.elements_from(0, 0)
    }

    /// One call keeps the node capacity and adds at most one node.
    pub open spec fn call_step(before: Self, after: Self) -> bool {
        &&& after.spec_node_capacity() == before.spec_node_capacity()
        &&& (after.spec_node_num() == before.spec_node_num() || after.spec_node_num()
            == before.spec_node_num() + 1)
    }

    /// The slot that the next push fills: the first empty slot from the cursor on; when
    /// there is none and the threshold has run down to 0, the first empty slot from the
    /// start; otherwise the first slot of a new node.
    pub open spec fn push_target(&self) -> (int, int) {
        let cn = self.spec_cursor_node();
        let c = self.spec_cursor();
        if self.has_free_from(cn, c) {
            self.first_from(cn, c, false)
        } else if self.spec_threshold() <= 0 && self.has_free_from(0, 0) {
            self.first_from(0, 0, false)
        } else {
            (self@.len() as int, 0)
        }
    }

    /// The slots once `v` is written at `(n, i)`; a place past the last node is the first
    /// slot of a new node.
    pub open spec fn filled_view(&self, n: int, i: int, v: T) -> Seq<Seq<Option<T>>> {
        if n < self@.len() {
            self@.update(n, self@[n].update(i, Some(v)))
        } else {
            self@.push(
                Seq::new(self.spec_node_capacity(), |j: int| if j == 0 { Some(v) } else { None }),
            )
        }
    }

    /// The epochs once an element is written at `(n, i)`.
    pub open spec fn filled_epochs(&self, n: int, i: int) -> Seq<Seq<E>> {
        if n < self@.len() {
            self.epochs().update(n, self.epochs()[n].update(i, self.epochs()[n][i].spec_update()))
        } else {
            self.epochs().push(Seq::new(self.spec_node_capacity(), |j: int| E::spec_new(0)))
        }
    }

    /// The threshold after a push.
    pub open spec fn threshold_after_push(&self) -> int {
        if self.has_free_from(self.spec_cursor_node(), self.spec_cursor()) {
            self.spec_threshold()
        } else if self.spec_threshold() <= 0 && self.has_free_from(0, 0) {
            threshold_for(self.spec_node_num() as int, self.spec_node_capacity() as int)
        } else {
            threshold_for(self.spec_node_num() + 1int, self.spec_node_capacity() as int)
        }
    }

    /// What `push(v)` returns (`idx`) and leaves (`after`), from `before`.
    pub open spec fn push_post(before: Self, after: Self, v: T, idx: LarivIndex<E>) -> bool {
        let (n, i) = before.push_target();
        &&& idx.node == n
        &&& idx.index == i
        &&& after@ == before.filled_view(n, i, v)
        &&& after.epochs() == before.filled_epochs(n, i)
        &&& idx.epoch == after.epochs()[n][i]
        &&& after.spec_node_capacity() == before.spec_node_capacity()
        &&& after.spec_cursor_node() == n
        &&& after.spec_cursor() == i + 1
        &&& after.spec_threshold() == before.threshold_after_push()
    }

    /// The slots once slot `(node, index)`, if it exists, is emptied.
    pub open spec fn emptied_view(&self, node: u64, index: u64) -> Seq<Seq<Option<T>>> {
        if self.in_bounds(node, index) {
            self@.update(node as int, self@[node as int].update(index as int, None))
        } else {
            self@
        }
    }

    /// `new` and `old` agree on everything but the contents of the slots.
    pub open spec fn same_bookkeeping(before: Self, after: Self) -> bool {
        &&& after.epochs() =~~= before.epochs()
        &&& after.spec_node_capacity() == before.spec_node_capacity()
        &&& after.spec_cursor_node() == before.spec_cursor_node()
        &&& after.spec_cursor() == before.spec_cursor()
    }


    /// What `remove(index)` leaves (`after`), from `before`: the slot that `(node, index)`
    /// names, if any, is emptied, and then the threshold goes down by one.
    pub open spec fn remove_post(before: Self, after: Self, node: u64, index: u64) -> bool {
        &&& after@ == before.emptied_view(node, index)
        &&& Self::same_bookkeeping(before, after)
        &&& after.spec_node_num() == before.spec_node_num()
        &&& after.spec_threshold() == (if before.in_bounds(node, index) {
            dec_threshold(before.spec_threshold())
        } else {
            before.spec_threshold()
        })
    }

    /// What `take(index)` returns (`r`) and leaves (`after`), from `before`.
    pub open spec fn take_post(before: Self, after: Self, node: u64, index: u64, r: Option<T>) -> bool {
        &&& r == before.lookup(node, index)
        &&& after@ == before.emptied_view(node, index)
        &&& Self::same_bookkeeping(before, after)
        &&& after.spec_node_num() == before.spec_node_num()
        &&& after.spec_threshold() == dec_threshold(before.spec_threshold())
    }

    // ---------------------------------------------------------------- proofs

    proof fn lemma_slot(&self, n: int, i: int)
        requires
            self.wf(),
            0 <= n < self.spec_node_num(),
            0 <= i < self.spec_node_capacity(),
        ensures
            self.nodes@[n].wf(n, self.cap as int),
            self.nodes@[n].metadata@[i].pairs_with(self.nodes@[n].data@[i]),
            self@[n][i] == self.nodes@[n].data@[i],
            self.epochs()[n][i] == self.nodes@[n].metadata@[i].spec_epoch(),
    {
        assert(self.nodes@[n].wf(n, self.cap as int));
    }

    pub proof fn lemma_first_from(&self, n0: int, i0: int, n: int, i: int, occupied: bool)
        requires
            self.is_first_from(n0, i0, n, i, occupied),
        ensures
            self.has_from(n0, i0, occupied),
            self.first_from(n0, i0, occupied) == (n, i),
    {
        assert(self.slot_is(n, i, occupied));
        let w = (n, i);
        assert(self.is_first_from(n0, i0, w.0, w.1, occupied));
        let q = self.first_from(n0, i0, occupied);
        assert(self.is_first_from(n0, i0, q.0, q.1, occupied));
        if lex_lt(n, i, q.0, q.1) {
            assert(self.slot_is(n, i, occupied));
        } else if lex_lt(q.0, q.1, n, i) {
            assert(self.slot_is(q.0, q.1, occupied));
        }
    }


    /// The push target is an empty slot, or the first slot of a new node.
    pub proof fn lemma_push_target(&self)
        requires
            self.wf(),
        ensures
            ({
                let (n, i) = self.push_target();
                ||| self.is_free(n, i)
                ||| (n == self@.len() && i == 0 && !self.has_free_from(
                    self.spec_cursor_node(),
                    self.spec_cursor(),
                ) && (self.spec_threshold() > 0 || !self.has_free_from(0, 0)))
            }),
    {
        self.lemma_wf_shaped();
        let cn = self.spec_cursor_node();
        let c = self.spec_cursor();
        if self.has_free_from(cn, c) {
            self.lemma_has_first(cn, c, false);
        } else if self.spec_threshold() <= 0 && self.has_free_from(0, 0) {
            self.lemma_has_first(0, 0, false);
        }
    }

    /// When some slot from `(n0, i0)` on is in a state, there is a first one.
    pub proof fn lemma_has_first(&self, n0: int, i0: int, occupied: bool)
        requires
            self.shaped(),
            self.has_from(n0, i0, occupied),
        ensures
            self.is_first_from(n0, i0, self.first_from(n0, i0, occupied).0, self.first_from(n0, i0, occupied).1, occupied),
    {
        let (a, b) = choose|a: int, b: int| #[trigger] self.slot_is(a, b, occupied) && lex_le(n0, i0, a, b);
        self.lemma_first_below(n0, i0, a, b, occupied);
        let (n, i) = choose|n: int, i: int| self.is_first_from(n0, i0, n, i, occupied);
        self.lemma_first_from(n0, i0, n, i, occupied);
    }

    /// Below a slot in a state, from `(n0, i0)` on, there is a first slot in that state.
    proof fn lemma_first_below(&self, n0: int, i0: int, a: int, b: int, occupied: bool)
        requires
            self.shaped(),
            self.slot_is(a, b, occupied),
            lex_le(n0, i0, a, b),
        ensures
            exists|n: int, i: int| self.is_first_from(n0, i0, n, i, occupied),
        decreases a, b + 1,
    {
        if self.is_first_from(n0, i0, a, b, occupied) {
            return;
        }
        let (x, y) = choose|x: int, y: int|
            lex_le(n0, i0, x, y) && lex_lt(x, y, a, b) && #[trigger] self.slot_is(x, y, occupied);
        self.lemma_first_below(n0, i0, x, y, occupied);
    }


    /// Walking from `(n, i)`: the elements from there are the first element at or after
    /// it followed by the elements after that one, or nothing when there is none.
    pub proof fn lemma_elements_walk(&self, n: int, i: int)
        requires
            self.shaped(),
            0 <= n,
            0 <= i <= self.spec_node_capacity(),
        ensures
            self.has_from(n, i, true) ==> {
                let p = self.first_from(n, i, true);
                self.elements_from(n, i) == seq![self@[p.0][p.1]->0] + self.elements_from(p.0, p.1 + 1)
            },
            !self.has_from(n, i, true) ==> self.elements_from(n, i) == Seq::<T>::empty(),
        decreases self@.len() - n, self.spec_node_capacity() - i,
    {
        let cap = self.spec_node_capacity() as int;
        if n >= self@.len() {
            assert forall|x: int, y: int| #[trigger] self.slot_is(x, y, true) implies !lex_le(n, i, x, y) by {}
        } else if i >= cap {
            self.lemma_elements_walk(n + 1, 0);
            assert forall|x: int, y: int| #[trigger] self.slot_is(x, y, true) implies (lex_le(n, i, x, y)
                <==> lex_le(n + 1, 0, x, y)) by {}
            if self.has_from(n + 1, 0, true) {
                let p = self.first_from(n + 1, 0, true);
                self.lemma_has_first(n + 1, 0, true);
                assert(self.is_first_from(n, i, p.0, p.1, true));
                self.lemma_first_from(n, i, p.0, p.1, true);
            }
        } else {
            self.lemma_elements_walk(n, i + 1);
            if self@[n][i] is Some {
                assert(self.is_first_from(n, i, n, i, true));
                self.lemma_first_from(n, i, n, i, true);
            } else {
                assert(!self.slot_is(n, i, true));
                assert forall|x: int, y: int| #[trigger] self.slot_is(x, y, true) implies (lex_le(n, i, x, y)
                    <==> lex_le(n, i + 1, x, y)) by {}
                if self.has_from(n, i + 1, true) {
                    let p = self.first_from(n, i + 1, true);
                    self.lemma_has_first(n, i + 1, true);
                    assert(self.is_first_from(n, i, p.0, p.1, true));
                    self.lemma_first_from(n, i, p.0, p.1, true);
                }
            }
        }
    }

    /// After one node was changed in slot `i` only, keeping its tags in step with its
    /// elements, everything is as before except that slot.
    proof fn lemma_node_replaced(&self, before: Self, n: int, i: int, old_node: LarivNode<T, E>)
        requires
            before.wf(),
            0 <= n < before.spec_node_num(),
            0 <= i < before.spec_node_capacity(),
            old_node == before.nodes@[n],
            self.nodes@ == before.nodes@.update(n, self.nodes@[n]),
            self.cap == before.cap,
            self.cursor == before.cursor,
            self.cursor_node == before.cursor_node,
            self.allocation_threshold == before.allocation_threshold,
            self.nodes@[n].nth == old_node.nth,
            self.nodes@[n].metadata@.len() == old_node.metadata@.len(),
            self.nodes@[n].data@.len() == old_node.data@.len(),
            self.nodes@[n].metadata@[i].pairs_with(self.nodes@[n].data@[i]),
            forall|k: int| 0 <= k < before.cap && k != i ==> self.nodes@[n].metadata@[k] == old_node.metadata@[k],
            forall|k: int| 0 <= k < before.cap && k != i ==> self.nodes@[n].data@[k] == old_node.data@[k],
        ensures
            self.wf(),
            self@ == before@.update(n, before@[n].update(i, self.nodes@[n].data@[i])),
            self.epochs() == before.epochs().update(n, before.epochs()[n].update(i, self.nodes@[n].metadata@[i].spec_epoch())),
    {
        let nd = self.nodes@[n];
        assert(before.nodes@[n].wf(n, before.cap as int));
        assert forall|k: int| 0 <= k < self.cap implies #[trigger] nd.metadata@[k].pairs_with(nd.data@[k]) by {
            if k != i {
                assert(old_node.metadata@[k].pairs_with(old_node.data@[k]));
            }
        }
        assert(nd.wf(n, self.cap as int));
        assert forall|m: int| 0 <= m < self.nodes@.len() implies (#[trigger] self.nodes@[m]).wf(m, self.cap as int) by {
            if m != n {
                assert(before.nodes@[m].wf(m, before.cap as int));
            }
        }
        assert(nd.data@ =~= old_node.data@.update(i, nd.data@[i]));
        assert(self@ =~= before@.update(n, before@[n].update(i, self.nodes@[n].data@[i])));
        assert(nd.epochs() =~= old_node.epochs().update(i, nd.metadata@[i].spec_epoch()));
        assert(self.epochs() =~= before.epochs().update(n, before.epochs()[n].update(i, self.nodes@[n].metadata@[i].spec_epoch())));
    }

    // ---------------------------------------------------------------- exec

    /// Looks for the first slot at or after `(n0, i0)` that holds an element
    /// (`occupied`) or is empty (not `occupied`).
    pub(crate) fn find(&self, n0: usize, i0: usize, occupied: bool) -> (r: Option<(usize, usize)>)
        requires
            self.wf(),
            n0 < self.spec_node_num(),
            i0 <= self.spec_node_capacity(),
        ensures
            r matches Some(p) ==> self.is_first_from(n0 as int, i0 as int, p.0 as int, p.1 as int, occupied),
            r is None ==> !self.has_from(n0 as int, i0 as int, occupied),
    {
        proof {
            self.lemma_wf_shaped();
        }
        let len = self.nodes.len();
        let cap = self.cap;
        let mut n: usize = n0;
        let mut i: usize = i0;
        while n < len
            invariant
                self.wf(),
                self.shaped(),
                len == self.spec_node_num(),
                cap == self.spec_node_capacity(),
                n0 <= n <= len,
                n == n0 ==> i0 <= i,
                i <= cap,
                n0 < len,
                forall|x: int, y: int|
                    lex_le(n0 as int, i0 as int, x, y) && lex_lt(x, y, n as int, i as int) ==> !#[trigger] self.slot_is(x, y, occupied),
            decreases len - n, cap - i,
        {
            if i < cap {
                proof {
                    self.lemma_slot(n as int, i as int);
                }
                if self.nodes[n].metadata[i].is_set() == occupied {
                    assert(self.slot_is(n as int, i as int, occupied));
                    return Some((n, i));
                }
                assert(!self.slot_is(n as int, i as int, occupied));
                i = i + 1;
            } else {
                n = n + 1;
                i = 0;
            }
        }
        assert forall|x: int, y: int| #[trigger] self.slot_is(x, y, occupied) implies !lex_le(n0 as int, i0 as int, x, y) by {
            assert(lex_lt(x, y, n as int, i as int));
        }
        None
    }

    /// 30% of the current capacity, rounded down.
    fn calculate_allocate_threshold(&self) -> (r: isize)
        requires
            self.wf(),
        ensures
            r == threshold_for(self.spec_node_num() as int, self.spec_node_capacity() as int),
    {
        let total: usize = self.nodes.len() * self.cap;
        let t: usize = total / 10 * 3 + total % 10 * 3 / 10;
        assert(t == total * 3 / 10) by (nonlinear_arith)
            requires
                t == total / 10 * 3 + total % 10 * 3 / 10,
                total >= 0,
        ;
        assert(t <= isize::MAX) by (nonlinear_arith)
            requires
                t == total * 3 / 10,
                total <= usize::MAX,
        ;
        t as isize
    }

    /// Writes `conn` into the empty slot `(n, i)` and moves the cursor behind it.
    fn fill(&mut self, n: usize, i: usize, conn: T) -> (idx: LarivIndex<E>)
        requires
            old(self).wf(),
            old(self).is_free(n as int, i as int),
        ensures
            final(self).wf(),
            idx.node == n,
            idx.index == i,
            final(self)@ == old(self).filled_view(n as int, i as int, conn),
            final(self).epochs() == old(self).filled_epochs(n as int, i as int),
            idx.epoch == final(self).epochs()[n as int][i as int],
            final(self).spec_node_num() == old(self).spec_node_num(),
            final(self).spec_node_capacity() == old(self).spec_node_capacity(),
            final(self).spec_cursor_node() == n,
            final(self).spec_cursor() == i + 1,
            final(self).spec_threshold() == old(self).spec_threshold(),
    {
        proof {
            self.lemma_wf_shaped();
            self.lemma_slot(n as int, i as int);
        }
        let ghost old_node = self.nodes@[n as int];
        let node = &mut self.nodes[n];
        let mut g = node.metadata[i].try_set().unwrap();
        g.write(&mut node.data[i], conn);
        let epoch = g.epoch();
        g.release();
        let nth = node.nth;
        proof {
            self.lemma_node_replaced(*old(self), n as int, i as int, old_node);
        }
        self.cursor_node = n;
        self.cursor = i + 1;
        proof {
            assert(self@ =~= old(self).filled_view(n as int, i as int, conn));
            assert(self.epochs() =~= old(self).filled_epochs(n as int, i as int));
        }
        LarivIndex { node: nth as u64, index: i as u64, epoch }
    }

    /// Adds a node behind the last one, writes `first_element` into its first slot and
    /// moves the cursor behind it.
    fn extend(&mut self, first_element: T) -> (idx: LarivIndex<E>)
        requires
            old(self).wf(),
            old(self).spec_capacity() + old(self).spec_node_capacity() <= usize::MAX,
        ensures
            final(self).wf(),
            idx.node == old(self).spec_node_num(),
            idx.index == 0,
            final(self)@ == old(self).filled_view(old(self).spec_node_num() as int, 0, first_element),
            final(self).epochs() == old(self).filled_epochs(old(self).spec_node_num() as int, 0),
            idx.epoch == E::spec_new(0),
            final(self).spec_node_num() == old(self).spec_node_num() + 1,
            final(self).spec_node_capacity() == old(self).spec_node_capacity(),
            final(self).spec_cursor_node() == old(self).spec_node_num(),
            final(self).spec_cursor() == 1,
            final(self).spec_threshold() == threshold_for(
                old(self).spec_node_num() + 1int,
                old(self).spec_node_capacity() as int,
            ),
    {
        proof {
            self.lemma_wf_shaped();
        }
        let nth = self.nodes.len();
        let mut node = LarivNode::new_empty(self.cap, nth);
        let ghost empty = node;
        node.metadata[0] = AtomicOptionTag::some();
        node.data[0] = Some(first_element);
        proof {
            assert forall|k: int| 0 <= k < self.cap implies #[trigger] node.metadata@[k].pairs_with(node.data@[k]) by {
                if k != 0 {
                    assert(node.metadata@[k] == empty.metadata@[k]);
                }
            }
            assert(node.wf(nth as int, self.cap as int));
            assert(node.data@ =~= Seq::new(self.cap as nat, |j: int| if j == 0 { Some(first_element) } else { None }));
            assert(node.epochs() =~= Seq::new(self.cap as nat, |j: int| E::spec_new(0)));
            assert((nth + 1) * self.cap == nth * self.cap + self.cap) by (nonlinear_arith);
        }
        self.nodes.push(node);
        self.allocation_threshold = self.calculate_allocate_threshold();
        self.cursor_node = nth;
        self.cursor = 1;
        proof {
            assert forall|m: int| 0 <= m < self.nodes@.len() implies (#[trigger] self.nodes@[m]).wf(m, self.cap as int) by {
                if m < nth {
                    assert(self.nodes@[m] == old(self).nodes@[m]);
                }
            }
            assert(self@ =~= old(self).filled_view(nth as int, 0, first_element));
            assert(self.epochs() =~= old(self).filled_epochs(nth as int, 0));
        }
        LarivIndex { node: nth as u64, index: 0, epoch: E::new(0) }
    }

    /// Inserts a new element into the [`Lariv`] and returns its [`LarivIndex`].
    ///
    /// The element goes into the first free slot from the cursor on. When there is none
    /// and enough elements were removed since the cursor last wrapped (the threshold has
    /// run down to 0), the cursor wraps to the first node and the first free slot from
    /// there is taken. Otherwise a new node is added. No element already stored moves.
    pub fn push(&mut self, conn: T) -> (idx: LarivIndex<E>)
        requires
            old(self).wf(),
            old(self).spec_capacity() + old(self).spec_node_capacity() <= usize::MAX,
        ensures
            Self::call_step(*old(self), *final(self)),
            final(self).wf(),
            Self::push_post(*old(self), *final(self), conn, idx),
    {
        proof {
            self.lemma_wf_shaped();
        }
        let ghost cn = self.cursor_node as int;
        let ghost c = self.cursor as int;
        match self.find(self.cursor_node, self.cursor, false) {
            Some(p) => {
                let (n, i) = p;
                proof {
                    old(self).lemma_first_from(cn, c, n as int, i as int, false);
                }
                self.fill(n, i, conn)
            },
            None => {
                if self.allocation_threshold <= 0 {
                    self.allocation_threshold = self.calculate_allocate_threshold();
                    self.cursor_node = 0;
                    self.cursor = 1;
                    match self.find(0, 0, false) {
                        Some(p) => {
                            let (n, i) = p;
                            proof {
                                assert(old(self).is_first_from(0, 0, n as int, i as int, false)) by {
                                    assert forall|x: int, y: int| old(self).slot_is(x, y, false) == self.slot_is(x, y, false) by {}
                                }
                                old(self).lemma_first_from(0, 0, n as int, i as int, false);
                            }
                            return self.fill(n, i, conn);
                        },
                        None => {
                            proof {
                                assert(!old(self).has_free_from(0, 0)) by {
                                    assert forall|x: int, y: int| old(self).slot_is(x, y, false) == self.slot_is(x, y, false) by {}
                                }
                            }
                        },
                    }
                }
                self.extend(conn)
            },
        }
    }

    /// Finds the slot that `li` names, when it exists.
    fn get_ptr<I: Epoch>(&self, li: &LarivIndex<I>) -> (r: Option<(usize, usize)>)
        requires
            self.wf(),
        ensures
            r is Some <==> self.in_bounds(li.node, li.index),
            r matches Some(p) ==> p.0 == li.node && p.1 == li.index,
    {
        if li.index >= self.cap as u64 || li.node >= self.nodes.len() as u64 {
            return None;
        }
        Some((li.node as usize, li.index as usize))
    }

    /// Shared access to the element that `index` names, when there is one.
    pub fn get<I: Epoch>(&self, index: LarivIndex<I>) -> (r: Option<Guard<'_, T, E>>)
        requires
            self.wf(),
        ensures
            r is Some <==> self.lookup(index.node, index.index) is Some,
            r matches Some(g) ==> g.spec_value() == self.lookup(index.node, index.index)->0
                && g.spec_guard() == self.epoch_at(index.node, index.index),
    {
        match self.get_ptr(&index) {
            Some(p) => {
                let (n, i) = p;
                proof {
                    self.lemma_wf_shaped();
                    self.lemma_slot(n as int, i as int);
                }
                self.nodes[n].metadata[i].get(&self.nodes[n].data[i])
            },
            None => None,
        }
    }

    /// Exclusive access to the element that `index` names, when there is one.
    pub fn get_mut<I: Epoch>(&mut self, index: LarivIndex<I>) -> (r: Option<&mut T>)
        requires
            old(self).wf(),
        ensures
            Self::call_step(*old(self), *final(self)),
            final(self).wf(),
            r is Some <==> old(self).lookup(index.node, index.index) is Some,
            r is None ==> final(self)@ == old(self)@,
            r matches Some(e) ==> *e == old(self).lookup(index.node, index.index)->0
                && final(self)@ == old(self)@.update(
                index.node as int,
                old(self)@[index.node as int].update(index.index as int, Some(*final(e))),
            ),
            Self::same_bookkeeping(*old(self), *final(self)),
            final(self).spec_node_num() == old(self).spec_node_num(),
            final(self).spec_threshold() == old(self).spec_threshold(),
    {
        proof {
            self.lemma_wf_shaped();
        }
        match self.get_ptr(&index) {
            Some(p) => {
                let (n, i) = p;
                proof {
                    self.lemma_slot(n as int, i as int);
                }
                if !self.nodes[n].metadata[i].is_set() {
                    return None;
                }
                self.slot_mut(n, i)
            },
            None => None,
        }
    }

    /// Exclusive access to the element of the occupied slot `(n, i)`.
    pub(crate) fn slot_mut(&mut self, n: usize, i: usize) -> (r: Option<&mut T>)
        requires
            old(self).wf(),
            n < old(self).spec_node_num(),
            i < old(self).spec_node_capacity(),
            old(self)@[n as int][i as int] is Some,
        ensures
            final(self).wf(),
            r matches Some(e) && *e == old(self)@[n as int][i as int]->0
                && final(self)@ == old(self)@.update(n as int, old(self)@[n as int].update(i as int, Some(*final(e)))),
            Self::same_bookkeeping(*old(self), *final(self)),
            final(self).spec_node_num() == old(self).spec_node_num(),
            final(self).spec_threshold() == old(self).spec_threshold(),
    {
        proof {
            self.lemma_slot(n as int, i as int);
        }
        self.nodes[n].data[i].as_mut()
    }


    /// Empties the slot `(n, i)`, dropping its element if it holds one.
    fn empty_slot(&mut self, n: usize, i: usize)
        requires
            old(self).wf(),
            n < old(self).spec_node_num(),
            i < old(self).spec_node_capacity(),
        ensures
            final(self).wf(),
            final(self)@ == old(self)@.update(n as int, old(self)@[n as int].update(i as int, None)),
            Self::same_bookkeeping(*old(self), *final(self)),
            final(self).spec_node_num() == old(self).spec_node_num(),
            final(self).spec_threshold() == old(self).spec_threshold(),
    {
        proof {
            self.lemma_wf_shaped();
            self.lemma_slot(n as int, i as int);
        }
        let ghost old_node = self.nodes@[n as int];
        let node = &mut self.nodes[n];
        node.metadata[i].empty(&mut node.data[i]);
        proof {
            self.lemma_node_replaced(*old(self), n as int, i as int, old_node);
        }
    }

    /// Takes the element out of the slot `(n, i)`, leaving it empty.
    pub(crate) fn take_slot(&mut self, n: usize, i: usize) -> (r: Option<T>)
        requires
            old(self).wf(),
            n < old(self).spec_node_num(),
            i < old(self).spec_node_capacity(),
        ensures
            final(self).wf(),
            r == old(self)@[n as int][i as int],
            final(self)@ == old(self)@.update(n as int, old(self)@[n as int].update(i as int, None)),
            Self::same_bookkeeping(*old(self), *final(self)),
            final(self).spec_node_num() == old(self).spec_node_num(),
            final(self).spec_threshold() == old(self).spec_threshold(),
    {
        proof {
            self.lemma_wf_shaped();
            self.lemma_slot(n as int, i as int);
        }
        let ghost old_node = self.nodes@[n as int];
        let node = &mut self.nodes[n];
        let r = node.metadata[i].take(&mut node.data[i]);
        proof {
            self.lemma_node_replaced(*old(self), n as int, i as int, old_node);
        }
        r
    }

    /// Removes the element that `index` names, if there is one. When `index` names a slot,
    /// the threshold goes down by one (whether or not the slot held an element).
    pub fn remove<I: Epoch>(&mut self, index: LarivIndex<I>)
        requires
            old(self).wf(),
        ensures
            Self::call_step(*old(self), *final(self)),
            final(self).wf(),
            Self::remove_post(*old(self), *final(self), index.node, index.index),
    {
        match self.get_ptr(&index) {
            Some(p) => {
                let (n, i) = p;
                self.empty_slot(n, i);
                self.allocation_threshold = self.allocation_threshold.wrapping_sub(1);
            },
            None => {},
        }
    }

    /// Removes the element that `index` names and returns it, if there is one. The
    /// threshold goes down by one in any case.
    pub fn take<I: Epoch>(&mut self, index: LarivIndex<I>) -> (r: Option<T>)
        requires
            old(self).wf(),
        ensures
            Self::call_step(*old(self), *final(self)),
            final(self).wf(),
            Self::take_post(*old(self), *final(self), index.node, index.index, r),
    {
        self.allocation_threshold = self.allocation_threshold.wrapping_sub(1);
        match self.get_ptr(&index) {
            Some(p) => {
                let (n, i) = p;
                self.take_slot(n, i)
            },
            None => None,
        }
    }

    /// The number of elements any node holds at most: the value given to [`Lariv::new`].
    pub fn node_capacity(&self) -> (r: usize)
        requires
            self.wf(),
        ensures
            r == self.spec_node_capacity(),
    {
        self.cap
    }

    /// The number of nodes.
    pub fn node_num(&self) -> (r: usize)
        requires
            self.wf(),
        ensures
            r == self.spec_node_num(),
    {
        self.nodes.len()
    }

    /// The number of elements the Lariv holds at most: `node_capacity() * node_num()`.
    pub fn capacity(&self) -> (r: usize)
        requires
            self.wf(),
        ensures
            r == self.spec_capacity(),
            r == self.spec_node_num() * self.spec_node_capacity(),
    {
        self.node_num() * self.node_capacity()
    }

}


impl<T> Lariv<T> {
    /// Builds a new Lariv without epochs, whose nodes hold `buf_cap` elements each. For
    /// speed the capacity should be well over the number of elements expected at once.
    pub fn new(buf_cap: usize) -> (r: Lariv<T, NoEpoch>)
        requires
            buf_cap > 3,
        ensures
            r.wf(),
            r.spec_node_capacity() == buf_cap,
            r.spec_node_num() == 1,
            r@ == seq![Seq::new(buf_cap as nat, |j: int| None::<T>)],
            r.epochs() == seq![Seq::new(buf_cap as nat, |j: int| NoEpoch)],
            r.spec_cursor_node() == 0,
            r.spec_cursor() == 0,
            r.spec_threshold() == 0,
    {
        Lariv::init(buf_cap)
    }

    /// Builds a new Lariv with epochs, whose nodes hold `buf_cap` elements each. Epochs
    /// let the `*_with_epoch` functions tell a replaced element from the one an index was
    /// handed out for.
    pub fn new_with_epoch(buf_cap: usize) -> (r: Lariv<T, LarivEpoch>)
        requires
            buf_cap > 3,
        ensures
            r.wf(),
            r.spec_node_capacity() == buf_cap,
            r.spec_node_num() == 1,
            r@ == seq![Seq::new(buf_cap as nat, |j: int| None::<T>)],
            r.epochs() == seq![Seq::new(buf_cap as nat, |j: int| LarivEpoch(0))],
            r.spec_cursor_node() == 0,
            r.spec_cursor() == 0,
            r.spec_threshold() == 0,
    {
        Lariv::init(buf_cap)
    }

    fn init<E: Epoch>(buf_cap: usize) -> (r: Lariv<T, E>)
        requires
            buf_cap > 3,
        ensures
            r.wf(),
            r.spec_node_capacity() == buf_cap,
            r.spec_node_num() == 1,
            r@ == seq![Seq::new(buf_cap as nat, |j: int| None::<T>)],
            r.epochs() == seq![Seq::new(buf_cap as nat, |j: int| E::spec_new(0))],
            r.spec_cursor_node() == 0,
            r.spec_cursor() == 0,
            r.spec_threshold() == 0,
    {
        let head = LarivNode::new_empty(buf_cap, 0);
        let mut nodes: Vec<LarivNode<T, E>> = Vec::new();
        nodes.push(head);
        let r = Lariv { nodes, cursor: 0, cursor_node: 0, cap: buf_cap, allocation_threshold: 0 };
        proof {
            assert(r.nodes@[0].wf(0, buf_cap as int));
            assert(r@ =~= seq![Seq::new(buf_cap as nat, |j: int| None::<T>)]);
            assert(r.epochs() =~= seq![Seq::new(buf_cap as nat, |j: int| E::spec_new(0))]);
        }
        r
    }
}

impl<T> Lariv<T, LarivEpoch> {

    /// What `remove_with_epoch(index)` leaves (`after`), from `before`.
    pub open spec fn remove_with_epoch_post(before: Self, after: Self, index: LarivIndex<LarivEpoch>) -> bool {
        &&& after@ == (if before.in_bounds(index.node, index.index) && before.epoch_at(
            index.node,
            index.index,
        ).0 == index.epoch.0 {
            before.emptied_view(index.node, index.index)
        } else {
            before@
        })
        &&& Self::same_bookkeeping(before, after)
        &&& after.spec_node_num() == before.spec_node_num()
        &&& after.spec_threshold() == (if before.in_bounds(index.node, index.index) {
            dec_threshold(before.spec_threshold())
        } else {
            before.spec_threshold()
        })
    }

    /// What `take_with_epoch(index)` returns (`r`) and leaves (`after`), from `before`.
    pub open spec fn take_with_epoch_post(
        before: Self,
        after: Self,
        index: LarivIndex<LarivEpoch>,
        r: Option<T>,
    ) -> bool {
        &&& r == (if before.epoch_hit(index) {
            before.lookup(index.node, index.index)
        } else {
            None
        })
        &&& after@ == (if before.epoch_hit(index) {
            before.emptied_view(index.node, index.index)
        } else {
            before@
        })
        &&& after.epochs() == (if before.epoch_hit(index) {
            before.filled_epochs(index.node as int, index.index as int)
        } else {
            before.epochs()
        })
        &&& after.spec_node_capacity() == before.spec_node_capacity()
        &&& after.spec_cursor_node() == before.spec_cursor_node()
        &&& after.spec_cursor() == before.spec_cursor()
        &&& after.spec_node_num() == before.spec_node_num()
        &&& after.spec_threshold() == dec_threshold(before.spec_threshold())
    }
    /// Whether `index` names an element of this Lariv whose slot is still at the
    /// index's epoch.
    pub open spec fn epoch_hit(&self, index: LarivIndex<LarivEpoch>) -> bool {
        self.lookup(index.node, index.index) is Some && self.epoch_at(index.node, index.index).0
            == index.epoch.0
    }

    /// Shared access to the element that `index` names, when its slot is still at the
    /// index's epoch.
    pub fn get_with_epoch(&self, index: LarivIndex<LarivEpoch>) -> (r: Option<
        Guard<'_, T, LarivEpoch>,
    >)
        requires
            self.wf(),
        ensures
            r is Some <==> self.epoch_hit(index),
            r matches Some(g) ==> g.spec_value() == self.lookup(index.node, index.index)->0
                && g.spec_guard() == self.epoch_at(index.node, index.index),
    {
        match self.get_ptr(&index) {
            Some(p) => {
                let (n, i) = p;
                proof {
                    self.lemma_wf_shaped();
                    self.lemma_slot(n as int, i as int);
                }
                self.nodes[n].metadata[i].get_with_epoch(&self.nodes[n].data[i], index.epoch.0)
            },
            None => None,
        }
    }

    /// Exclusive access to the element that `index` names, when its slot is still at the
    /// index's epoch.
    pub fn get_mut_with_epoch(&mut self, index: LarivIndex<LarivEpoch>) -> (r: Option<&mut T>)
        requires
            old(self).wf(),
        ensures
            Self::call_step(*old(self), *final(self)),
            final(self).wf(),
            r is Some <==> old(self).epoch_hit(index),
            r is None ==> final(self)@ == old(self)@,
            r matches Some(e) ==> *e == old(self).lookup(index.node, index.index)->0
                && final(self)@ == old(self)@.update(
                index.node as int,
                old(self)@[index.node as int].update(index.index as int, Some(*final(e))),
            ),
            Self::same_bookkeeping(*old(self), *final(self)),
            final(self).spec_node_num() == old(self).spec_node_num(),
            final(self).spec_threshold() == old(self).spec_threshold(),
    {
        proof {
            self.lemma_wf_shaped();
        }
        match self.get_ptr(&index) {
            Some(p) => {
                let (n, i) = p;
                proof {
                    self.lemma_slot(n as int, i as int);
                }
                if !self.nodes[n].metadata[i].is_set() || !self.nodes[n].metadata[i].epoch_is(
                    index.epoch.0,
                ) {
                    return None;
                }
                self.slot_mut(n, i)
            },
            None => None,
        }
    }

    /// Removes the element that `index` names when its slot is still at the index's
    /// epoch. When `index` names a slot, the threshold goes down by one (whether or not
    /// an element was removed).
    pub fn remove_with_epoch(&mut self, index: LarivIndex<LarivEpoch>)
        requires
            old(self).wf(),
        ensures
            Self::call_step(*old(self), *final(self)),
            final(self).wf(),
            Self::remove_with_epoch_post(*old(self), *final(self), index),
    {
        match self.get_ptr(&index) {
            Some(p) => {
                let (n, i) = p;
                proof {
                    self.lemma_wf_shaped();
                    self.lemma_slot(n as int, i as int);
                }
                let ghost old_node = self.nodes@[n as int];
                let node = &mut self.nodes[n];
                node.metadata[i].empty_with_epoch(&mut node.data[i], index.epoch.0);
                proof {
                    self.lemma_node_replaced(*old(self), n as int, i as int, old_node);
                    if old(self).epoch_at(index.node, index.index).0 != index.epoch.0 {
                        assert(self@[n as int] =~= old(self)@[n as int]);
                        assert(self@ =~= old(self)@);
                    }
                }
                self.allocation_threshold = self.allocation_threshold.wrapping_sub(1);
            },
            None => {},
        }
    }

    /// Removes the element that `index` names and returns it, when its slot is still at
    /// the index's epoch; the slot's epoch then moves on, so that `index` no longer
    /// reaches whatever is written there next. The threshold goes down by one in any case.
    pub fn take_with_epoch(&mut self, index: LarivIndex<LarivEpoch>) -> (r: Option<T>)
        requires
            old(self).wf(),
        ensures
            Self::call_step(*old(self), *final(self)),
            final(self).wf(),
            Self::take_with_epoch_post(*old(self), *final(self), index, r),
    {
        self.allocation_threshold = self.allocation_threshold.wrapping_sub(1);
        match self.get_ptr(&index) {
            Some(p) => {
                let (n, i) = p;
                proof {
                    self.lemma_wf_shaped();
                    self.lemma_slot(n as int, i as int);
                }
                let ghost mid = *self;
                let ghost old_node = self.nodes@[n as int];
                let node = &mut self.nodes[n];
                let r = node.metadata[i].take_with_epoch(&mut node.data[i], index.epoch.0);
                proof {
                    self.lemma_node_replaced(mid, n as int, i as int, old_node);
                    if !old(self).epoch_hit(index) {
                        assert(self@[n as int] =~= old(self)@[n as int]);
                        assert(self@ =~= old(self)@);
                        assert(self.epochs()[n as int] =~= old(self).epochs()[n as int]);
                        assert(self.epochs() =~= old(self).epochs());
                    }
                }
                r
            },
            None => None,
        }
    }
}

} // verus!
