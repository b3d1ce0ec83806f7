use vstd::prelude::*;

use crate::epoch::{Epoch, LarivEpoch};
use crate::index::{packed_index, LarivIndex};
use crate::lariv::{lex_le, lex_lt, Lariv};

verus! {

/// An element pushed can be read back at the index that push returned.
pub proof fn law_push_then_lookup<T, E: Epoch>(
    before: Lariv<T, E>,
    after: Lariv<T, E>,
    v: T,
    idx: LarivIndex<E>,
)
    requires
        before.wf(),
        after.wf(),
        Lariv::push_post(before, after, v, idx),
    ensures
        after.in_bounds(idx.node, idx.index),
        after.lookup(idx.node, idx.index) == Some(v),
        after.epoch_at(idx.node, idx.index) == idx.epoch,
        after.spec_cursor_node() == idx.node,
        after.spec_cursor() == idx.index + 1,
{
    before.lemma_wf_shaped();
    after.lemma_wf_shaped();
    before.lemma_push_target();
}

/// A push writes into a slot that was empty, and leaves every other slot as it was:
/// no element stored before moves or changes.
pub proof fn law_push_keeps_others<T, E: Epoch>(
    before: Lariv<T, E>,
    after: Lariv<T, E>,
    v: T,
    idx: LarivIndex<E>,
    node: u64,
    index: u64,
)
    requires
        before.wf(),
        after.wf(),
        Lariv::push_post(before, after, v, idx),
        (node, index) != (idx.node, idx.index),
    ensures
        before.lookup(idx.node, idx.index) is None,
        after.lookup(node, index) == before.lookup(node, index),
        before.in_bounds(node, index) ==> after.epoch_at(node, index) == before.epoch_at(node, index),
{
    before.lemma_wf_shaped();
    after.lemma_wf_shaped();
    before.lemma_push_target();
}

/// A node is added only when no slot from the cursor on is empty, and either the
/// threshold has not run down or no slot at all is empty; the nodes keep their size, and
/// there is at most one node more.
pub proof fn law_push_grows_only_when_full<T, E: Epoch>(
    before: Lariv<T, E>,
    after: Lariv<T, E>,
    v: T,
    idx: LarivIndex<E>,
)
    requires
        before.wf(),
        after.wf(),
        Lariv::push_post(before, after, v, idx),
    ensures
        after.spec_node_capacity() == before.spec_node_capacity(),
        after.spec_node_num() == before.spec_node_num() || after.spec_node_num()
            == before.spec_node_num() + 1,
        after.spec_node_num() == before.spec_node_num() + 1 ==> {
            &&& !before.has_free_from(before.spec_cursor_node(), before.spec_cursor())
            &&& (before.spec_threshold() > 0 || !before.has_free_from(0, 0))
            &&& idx.node == before.spec_node_num()
            &&& idx.index == 0
        },
{
    before.lemma_wf_shaped();
    after.lemma_wf_shaped();
    before.lemma_push_target();
}

/// After an element is removed, its index reaches nothing, and every other slot is as it
/// was.
pub proof fn law_remove_then_lookup<T, E: Epoch>(
    before: Lariv<T, E>,
    after: Lariv<T, E>,
    removed: LarivIndex<E>,
    node: u64,
    index: u64,
)
    requires
        before.wf(),
        after.wf(),
        after@ == before.emptied_view(removed.node, removed.index),
    ensures
        after.lookup(removed.node, removed.index) is None,
        (node, index) != (removed.node, removed.index) ==> after.lookup(node, index)
            == before.lookup(node, index),
{
    before.lemma_wf_shaped();
    after.lemma_wf_shaped();
}

/// The 128-bit form of an index gives back the same node and place.
pub proof fn law_index_roundtrip(node: u64, index: u64, packed: u128)
    ensures
        packed_index(node, index) % 0x1_0000_0000_0000_0000 == node,
        packed_index(node, index) / 0x1_0000_0000_0000_0000 == index,
        packed_index(
            (packed % 0x1_0000_0000_0000_0000) as u64,
            (packed / 0x1_0000_0000_0000_0000) as u64,
        ) == packed,
{
}

/// Once an element was taken out by its epoch, or its slot was filled again by a push,
/// the index handed out for it no longer reaches the slot.
pub proof fn law_refilled_slot_rejects_old_index<T>(
    before: Lariv<T, LarivEpoch>,
    after: Lariv<T, LarivEpoch>,
    v: T,
    idx: LarivIndex<LarivEpoch>,
    stale: LarivIndex<LarivEpoch>,
)
    requires
        before.wf(),
        after.wf(),
        Lariv::push_post(before, after, v, idx),
        idx.node == stale.node,
        idx.index == stale.index,
        before.in_bounds(stale.node, stale.index),
        before.epoch_at(stale.node, stale.index) == stale.epoch,
    ensures
        !after.epoch_hit(stale),
{
    before.lemma_wf_shaped();
    after.lemma_wf_shaped();
    before.lemma_push_target();
}

/// Once an element was taken out by its epoch, the index it was taken with reaches
/// nothing any more: the slot is empty and its epoch has moved on.
pub proof fn law_taken_index_is_stale<T>(
    before: Lariv<T, LarivEpoch>,
    after: Lariv<T, LarivEpoch>,
    taken: LarivIndex<LarivEpoch>,
)
    requires
        before.wf(),
        after.wf(),
        before.epoch_hit(taken),
        after@ == before.emptied_view(taken.node, taken.index),
        after.epochs() == before.filled_epochs(taken.node as int, taken.index as int),
    ensures
        !after.epoch_hit(taken),
        after.epoch_at(taken.node, taken.index).0 != taken.epoch.0,
{
    before.lemma_wf_shaped();
    after.lemma_wf_shaped();
}

/// A push into a Lariv with no empty slot adds exactly one node and writes into its first
/// slot.
pub proof fn law_push_into_full_adds_node<T, E: Epoch>(
    before: Lariv<T, E>,
    after: Lariv<T, E>,
    v: T,
    idx: LarivIndex<E>,
)
    requires
        before.wf(),
        after.wf(),
        Lariv::push_post(before, after, v, idx),
        !before.has_free_from(0, 0),
    ensures
        idx.node == before.spec_node_num(),
        idx.index == 0,
        after.spec_node_num() == before.spec_node_num() + 1,
        after.spec_node_capacity() == before.spec_node_capacity(),
        after.spec_capacity() == (before.spec_node_num() + 1) * before.spec_node_capacity(),
        after.lookup(idx.node, idx.index) == Some(v),
{
    before.lemma_wf_shaped();
    after.lemma_wf_shaped();
    if before.has_free_from(before.spec_cursor_node(), before.spec_cursor()) {
        let (n, i) = choose|n: int, i: int|
            #[trigger] before.slot_is(n, i, false) && lex_le(before.spec_cursor_node(), before.spec_cursor(), n, i);
        assert(before.slot_is(n, i, false) && lex_le(0, 0, n, i));
    }
    before.lemma_push_target();
}

/// Over any run of calls, the node capacity stays what it was built with, the node count
/// never goes down and there is always at least one node.
pub proof fn law_shape_over_calls<T, E: Epoch>(states: Seq<Lariv<T, E>>)
    requires
        states.len() >= 1,
        states[0].wf(),
        forall|k: int| 0 <= k < states.len() - 1 ==> Lariv::call_step(#[trigger] states[k], states[k + 1]),
    ensures
        forall|j: int| 0 <= j < states.len() ==> {
            &&& (#[trigger] states[j]).spec_node_capacity() == states[0].spec_node_capacity()
            &&& states[j].spec_node_num() >= 1
        },
        forall|i: int, j: int| 0 <= i <= j < states.len() ==> (#[trigger] states[i]).spec_node_num()
            <= (#[trigger] states[j]).spec_node_num(),
    decreases states.len(),
{
    states[0].lemma_wf_shaped();
    if states.len() > 1 {
        let front = states.drop_last();
        assert forall|k: int| 0 <= k < front.len() - 1 implies Lariv::call_step(#[trigger] front[k], front[k + 1]) by {
            assert(front[k] == states[k] && front[k + 1] == states[k + 1]);
            assert(Lariv::call_step(states[k], states[k + 1]));
        }
        law_shape_over_calls(front);
        let last = states.len() - 1;
        assert(Lariv::call_step(states[last - 1], states[last]));
        assert forall|j: int| 0 <= j < states.len() implies {
            &&& (#[trigger] states[j]).spec_node_capacity() == states[0].spec_node_capacity()
            &&& states[j].spec_node_num() >= 1
        } by {
            if j < last {
                assert(states[j] == front[j]);
            } else {
                assert(states[last - 1] == front[last - 1]);
            }
        }
        assert forall|i: int, j: int| 0 <= i <= j < states.len() implies (#[trigger] states[i]).spec_node_num()
            <= (#[trigger] states[j]).spec_node_num() by {
            if j < last {
                assert(states[i] == front[i] && states[j] == front[j]);
            } else if i < last {
                assert(states[i] == front[i] && states[last - 1] == front[last - 1]);
            }
        }
    }
}

/// The threshold after a push: unchanged when the push finds an empty slot from the
/// cursor on; 30% of the capacity (rounded down) when it wraps to the start and finds one
/// there; 30% of the capacity with one more node when it adds a node.
pub proof fn law_push_threshold<T, E: Epoch>(
    before: Lariv<T, E>,
    after: Lariv<T, E>,
    v: T,
    idx: LarivIndex<E>,
)
    requires
        before.wf(),
        after.wf(),
        Lariv::push_post(before, after, v, idx),
    ensures
        ({
            let slots = before.spec_node_num() * before.spec_node_capacity();
            if before.has_free_from(before.spec_cursor_node(), before.spec_cursor()) {
                &&& after.spec_threshold() == before.spec_threshold()
                &&& after.spec_node_num() == before.spec_node_num()
            } else if before.spec_threshold() <= 0 && before.has_free_from(0, 0) {
                &&& after.spec_threshold() == slots * 3 / 10
                &&& after.spec_node_num() == before.spec_node_num()
            } else {
                &&& after.spec_threshold() == (slots + before.spec_node_capacity()) * 3 / 10
                &&& after.spec_node_num() == before.spec_node_num() + 1
            }
        }),
{
    before.lemma_wf_shaped();
    after.lemma_wf_shaped();
    before.lemma_push_target();
    assert((before.spec_node_num() + 1) * before.spec_node_capacity() == before.spec_node_num()
        * before.spec_node_capacity() + before.spec_node_capacity()) by (nonlinear_arith);
}

/// A removal through an index that names a slot lowers the threshold by exactly one; an
/// index that names no slot leaves it.
pub proof fn law_remove_lowers_threshold<T, E: Epoch>(
    before: Lariv<T, E>,
    after: Lariv<T, E>,
    node: u64,
    index: u64,
)
    requires
        Lariv::remove_post(before, after, node, index),
        before.spec_threshold() > isize::MIN,
    ensures
        after.spec_threshold() == if before.in_bounds(node, index) {
            before.spec_threshold() - 1
        } else {
            before.spec_threshold()
        },
{
}

/// A take lowers the threshold by exactly one, whatever the index.
pub proof fn law_take_lowers_threshold<T, E: Epoch>(
    before: Lariv<T, E>,
    after: Lariv<T, E>,
    node: u64,
    index: u64,
    r: Option<T>,
)
    requires
        Lariv::take_post(before, after, node, index, r),
        before.spec_threshold() > isize::MIN,
    ensures
        after.spec_threshold() == before.spec_threshold() - 1,
{
}

/// A removal by epoch through an index that names a slot lowers the threshold by exactly
/// one, whether or not the epoch matched; an index that names no slot leaves it.
pub proof fn law_remove_with_epoch_lowers_threshold<T>(
    before: Lariv<T, LarivEpoch>,
    after: Lariv<T, LarivEpoch>,
    index: LarivIndex<LarivEpoch>,
)
    requires
        Lariv::remove_with_epoch_post(before, after, index),
        before.spec_threshold() > isize::MIN,
    ensures
        after.spec_threshold() == if before.in_bounds(index.node, index.index) {
            before.spec_threshold() - 1
        } else {
            before.spec_threshold()
        },
{
}

/// A take by epoch lowers the threshold by exactly one, whatever the index. When it takes
/// the element, the slot's epoch goes up by one (modulo 2^64); it changes no other slot's
/// epoch or element; when it takes nothing, no epoch changes.
pub proof fn law_take_with_epoch_effects<T>(
    before: Lariv<T, LarivEpoch>,
    after: Lariv<T, LarivEpoch>,
    index: LarivIndex<LarivEpoch>,
    r: Option<T>,
    node: u64,
    slot: u64,
)
    requires
        before.wf(),
        after.wf(),
        Lariv::take_with_epoch_post(before, after, index, r),
        before.spec_threshold() > isize::MIN,
    ensures
        after.spec_threshold() == before.spec_threshold() - 1,
        before.epoch_hit(index) ==> after.epoch_at(index.node, index.index).0 == (index.epoch.0 + 1)
            % 0x1_0000_0000_0000_0000,
        before.in_bounds(node, slot) && (!before.epoch_hit(index) || (node, slot) != (
            index.node,
            index.index,
        )) ==> after.epoch_at(node, slot) == before.epoch_at(node, slot),
        (node, slot) != (index.node, index.index) ==> after.lookup(node, slot) == before.lookup(node, slot),
{
    before.lemma_wf_shaped();
    after.lemma_wf_shaped();
}

/// A push moves the epoch of the slot it writes up by one (modulo 2^64), or gives the
/// first slot of a new node the epoch 0; the index it returns carries that epoch.
pub proof fn law_push_moves_epoch<T>(
    before: Lariv<T, LarivEpoch>,
    after: Lariv<T, LarivEpoch>,
    v: T,
    idx: LarivIndex<LarivEpoch>,
)
    requires
        before.wf(),
        after.wf(),
        Lariv::push_post(before, after, v, idx),
    ensures
        after.epoch_at(idx.node, idx.index) == idx.epoch,
        idx.node < before.spec_node_num() ==> idx.epoch.0 == (before.epoch_at(idx.node, idx.index).0 + 1)
            % 0x1_0000_0000_0000_0000,
        idx.node == before.spec_node_num() ==> idx.epoch.0 == 0,
{
    before.lemma_wf_shaped();
    after.lemma_wf_shaped();
    before.lemma_push_target();
}

/// The number of steps in `epochs` at which the value changes.
pub open spec fn epoch_moves(epochs: Seq<u64>) -> nat
    decreases epochs.len(),
{
    if epochs.len() <= 1 {
        0
    } else {
        let front = epochs.drop_last();
        epoch_moves(front) + if epochs.last() != front.last() { 1nat } else { 0nat }
    }
}

/// The epoch of one slot over a run of calls, where each call leaves it or moves it up by
/// one (modulo 2^64), as pushes and takes by epoch do: it ends up moved by the number of
/// moves, so after anywhere from 1 to 2^64 - 1 refills an index that remembers the first
/// epoch is rejected.
pub proof fn law_epoch_over_calls(epochs: Seq<u64>)
    requires
        epochs.len() >= 1,
        forall|k: int|
            0 <= k < epochs.len() - 1 ==> #[trigger] epochs[k + 1] == epochs[k] || epochs[k + 1] == (
            epochs[k] + 1) % 0x1_0000_0000_0000_0000,
    ensures
        epochs.last() == (epochs[0] + epoch_moves(epochs)) % 0x1_0000_0000_0000_0000,
        0 < epoch_moves(epochs) < 0x1_0000_0000_0000_0000 ==> epochs.last() != epochs[0],
    decreases epochs.len(),
{
    if epochs.len() > 1 {
        let front = epochs.drop_last();
        assert forall|k: int| 0 <= k < front.len() - 1 implies #[trigger] front[k + 1] == front[k]
            || front[k + 1] == (front[k] + 1) % 0x1_0000_0000_0000_0000 by {
            assert(front[k + 1] == epochs[k + 1] && front[k] == epochs[k]);
        }
        law_epoch_over_calls(front);
        let k = epochs.len() - 2;
        assert(front.last() == epochs[k]);
        assert(epochs[k + 1] == epochs[k] || epochs[k + 1] == (epochs[k] + 1) % 0x1_0000_0000_0000_0000);
    }
}

/// One step of a counting epoch adds one, wrapping to 0 after `u64::MAX`.
pub proof fn law_epoch_step(c: u64)
    ensures
        LarivEpoch(c).spec_update().0 == (c + 1) % 0x1_0000_0000_0000_0000,
        LarivEpoch(c).spec_update().0 != c,
{
}

/// Which slot a push fills. When some slot at or after the cursor is empty, it is the
/// first such slot. Otherwise, when the threshold has run down to 0 or below and some
/// slot is empty, it is the first empty slot from the start. Otherwise it is the first
/// slot of a new node.
pub proof fn law_push_target_is_first_free<T, E: Epoch>(
    before: Lariv<T, E>,
    after: Lariv<T, E>,
    v: T,
    idx: LarivIndex<E>,
)
    requires
        before.wf(),
        after.wf(),
        Lariv::push_post(before, after, v, idx),
    ensures
        ({
            let cn = before.spec_cursor_node();
            let c = before.spec_cursor();
            let n = idx.node as int;
            let i = idx.index as int;
            let cap = before.spec_node_capacity() as int;
            let empty_from = |a: int, b: int|
                exists|x: int, y: int|
                    0 <= x < before@.len() && 0 <= y < cap && before@[x][y] is None && lex_le(a, b, x, y);
            if empty_from(cn, c) {
                &&& before@[n][i] is None
                &&& i < cap
                &&& lex_le(cn, c, n, i)
                &&& forall|x: int, y: int|
                    0 <= x < before@.len() && 0 <= y < cap && lex_le(cn, c, x, y) && lex_lt(x, y, n, i)
                        ==> #[trigger] before@[x][y] is Some
            } else if before.spec_threshold() <= 0 && empty_from(0, 0) {
                &&& before@[n][i] is None
                &&& i < cap
                &&& forall|x: int, y: int|
                    0 <= x < before@.len() && 0 <= y < cap && lex_lt(x, y, n, i) ==> #[trigger] before@[x][y] is Some
            } else {
                &&& n == before@.len()
                &&& i == 0
            }
        }),
{
    before.lemma_wf_shaped();
    after.lemma_wf_shaped();
    let cn = before.spec_cursor_node();
    let c = before.spec_cursor();
    let cap = before.spec_node_capacity() as int;
    assert(before.has_free_from(cn, c) == (exists|x: int, y: int|
        0 <= x < before@.len() && 0 <= y < cap && before@[x][y] is None && lex_le(cn, c, x, y))) by {
        if before.has_free_from(cn, c) {
            let (x, y) = choose|x: int, y: int| #[trigger] before.slot_is(x, y, false) && lex_le(cn, c, x, y);
            assert(0 <= x < before@.len() && 0 <= y < cap && before@[x][y] is None && lex_le(cn, c, x, y));
        }
        if exists|x: int, y: int| 0 <= x < before@.len() && 0 <= y < cap && before@[x][y] is None && lex_le(cn, c, x, y) {
            let (x, y) = choose|x: int, y: int| 0 <= x < before@.len() && 0 <= y < cap && before@[x][y] is None && lex_le(cn, c, x, y);
            assert(before.slot_is(x, y, false));
        }
    }
    assert(before.has_free_from(0, 0) == (exists|x: int, y: int|
        0 <= x < before@.len() && 0 <= y < cap && before@[x][y] is None && lex_le(0, 0, x, y))) by {
        if before.has_free_from(0, 0) {
            let (x, y) = choose|x: int, y: int| #[trigger] before.slot_is(x, y, false) && lex_le(0, 0, x, y);
            assert(0 <= x < before@.len() && 0 <= y < cap && before@[x][y] is None && lex_le(0, 0, x, y));
        }
        if exists|x: int, y: int| 0 <= x < before@.len() && 0 <= y < cap && before@[x][y] is None && lex_le(0, 0, x, y) {
            let (x, y) = choose|x: int, y: int| 0 <= x < before@.len() && 0 <= y < cap && before@[x][y] is None && lex_le(0, 0, x, y);
            assert(before.slot_is(x, y, false));
        }
    }
    if before.has_free_from(cn, c) {
        before.lemma_has_first(cn, c, false);
        let p = before.first_from(cn, c, false);
        assert forall|x: int, y: int|
            0 <= x < before@.len() && 0 <= y < cap && lex_le(cn, c, x, y) && lex_lt(x, y, p.0, p.1)
                implies #[trigger] before@[x][y] is Some by {
            assert(!before.slot_is(x, y, false));
        }
    } else if before.spec_threshold() <= 0 && before.has_free_from(0, 0) {
        before.lemma_has_first(0, 0, false);
        let p = before.first_from(0, 0, false);
        assert forall|x: int, y: int|
            0 <= x < before@.len() && 0 <= y < cap && lex_lt(x, y, p.0, p.1)
                implies #[trigger] before@[x][y] is Some by {
            assert(lex_le(0, 0, x, y));
            assert(!before.slot_is(x, y, false));
        }
    }
}

/// A take returns the element that its index named, if any, and leaves that slot empty
/// and every other slot as it was.
pub proof fn law_take_returns_element<T, E: Epoch>(
    before: Lariv<T, E>,
    after: Lariv<T, E>,
    node: u64,
    index: u64,
    r: Option<T>,
    other_node: u64,
    other_index: u64,
)
    requires
        before.wf(),
        after.wf(),
        Lariv::take_post(before, after, node, index, r),
    ensures
        r == before.lookup(node, index),
        after.lookup(node, index) is None,
        (other_node, other_index) != (node, index) ==> after.lookup(other_node, other_index)
            == before.lookup(other_node, other_index),
{
    before.lemma_wf_shaped();
    after.lemma_wf_shaped();
}

/// The state of a Lariv of one node in which every element pushed was removed again:
/// all slots empty, and the threshold and the cursor add up to between 0 and 30% of
/// the capacity.
pub open spec fn churn_state<T, E: Epoch>(l: Lariv<T, E>) -> bool {
    &&& l.wf()
    &&& l.spec_node_num() == 1
    &&& l.spec_node_capacity() <= isize::MAX
    &&& forall|y: int| 0 <= y < l.spec_node_capacity() ==> #[trigger] l@[0][y] is None
    &&& 0 <= l.spec_threshold() + l.spec_cursor() <= l.spec_node_capacity() * 3 / 10
}

/// One push followed by the removal of what it pushed keeps a churning Lariv at one node.
pub proof fn law_churn_step<T, E: Epoch>(
    before: Lariv<T, E>,
    mid: Lariv<T, E>,
    after: Lariv<T, E>,
    v: T,
    idx: LarivIndex<E>,
)
    requires
        churn_state(before),
        mid.wf(),
        after.wf(),
        Lariv::push_post(before, mid, v, idx),
        Lariv::remove_post(mid, after, idx.node, idx.index),
    ensures
        churn_state(after),
{
    before.lemma_wf_shaped();
    mid.lemma_wf_shaped();
    after.lemma_wf_shaped();
    let cap = before.spec_node_capacity() as int;
    let c = before.spec_cursor();
    assert(before.spec_cursor_node() == 0);
    assert(cap * 3 / 10 <= cap);
    if c < cap {
        assert(before.slot_is(0, c, false));
        assert(before.is_first_from(0, c, 0, c, false));
        before.lemma_first_from(0, c, 0, c, false);
        assert(idx.node == 0 && idx.index == c);
        assert(mid.spec_threshold() == before.spec_threshold());
    } else {
        assert forall|x: int, y: int| #[trigger] before.slot_is(x, y, false) implies !lex_le(0, c, x, y) by {}
        assert(before.spec_threshold() <= 0);
        assert(before.slot_is(0, 0, false));
        assert(before.is_first_from(0, 0, 0, 0, false));
        before.lemma_first_from(0, 0, 0, 0, false);
        assert(idx.node == 0 && idx.index == 0);
        assert(mid.spec_threshold() == cap * 3 / 10) by {
            assert(before.spec_node_num() * before.spec_node_capacity() == cap);
        }
        assert(cap * 3 / 10 >= 1);
    }
    assert(mid.spec_node_num() == 1);
    assert(mid.in_bounds(idx.node, idx.index));
    assert(mid.spec_threshold() > isize::MIN);
    assert(after.spec_threshold() == mid.spec_threshold() - 1);
    assert(after.spec_node_num() == 1);
    assert(after.spec_cursor() == idx.index + 1);
    assert(0 <= after.spec_threshold() + after.spec_cursor() <= cap * 3 / 10);
    assert forall|y: int| 0 <= y < after.spec_node_capacity() implies #[trigger] after@[0][y] is None by {
        if y != idx.index {
            assert(after@[0][y] == mid@[0][y]);
            assert(mid@[0][y] == before@[0][y]);
        }
    }
}

/// Pushing elements and removing each right after it was pushed never adds a node to a
/// new Lariv: the removals run the threshold down before the cursor reaches the end, so
/// the cursor wraps back to the freed slots.
pub proof fn law_churn_keeps_one_node<T, E: Epoch>(
    states: Seq<Lariv<T, E>>,
    mids: Seq<Lariv<T, E>>,
    vals: Seq<T>,
    idxs: Seq<LarivIndex<E>>,
)
    requires
        states.len() >= 1,
        mids.len() == states.len() - 1,
        vals.len() == states.len() - 1,
        idxs.len() == states.len() - 1,
        states[0].wf(),
        states[0].spec_node_num() == 1,
        states[0].spec_node_capacity() <= isize::MAX,
        forall|y: int| 0 <= y < states[0].spec_node_capacity() ==> #[trigger] states[0]@[0][y] is None,
        states[0].spec_cursor() == 0,
        states[0].spec_threshold() == 0,
        forall|k: int| 0 <= k < mids.len() ==> (#[trigger] mids[k]).wf() && states[k + 1].wf(),
        forall|k: int|
            0 <= k < mids.len() ==> Lariv::push_post(states[k], #[trigger] mids[k], vals[k], idxs[k])
                && Lariv::remove_post(mids[k], states[k + 1], idxs[k].node, idxs[k].index),
    ensures
        forall|k: int| 0 <= k < states.len() ==> (#[trigger] states[k]).spec_node_num() == 1,
{
    assert(churn_state(states[0]));
    lemma_churn_run(states, mids, vals, idxs, states.len() - 1);
}

proof fn lemma_churn_run<T, E: Epoch>(
    states: Seq<Lariv<T, E>>,
    mids: Seq<Lariv<T, E>>,
    vals: Seq<T>,
    idxs: Seq<LarivIndex<E>>,
    upto: int,
)
    requires
        0 <= upto < states.len(),
        mids.len() == states.len() - 1,
        vals.len() == states.len() - 1,
        idxs.len() == states.len() - 1,
        churn_state(states[0]),
        forall|k: int| 0 <= k < mids.len() ==> (#[trigger] mids[k]).wf() && states[k + 1].wf(),
        forall|k: int|
            0 <= k < mids.len() ==> Lariv::push_post(states[k], #[trigger] mids[k], vals[k], idxs[k])
                && Lariv::remove_post(mids[k], states[k + 1], idxs[k].node, idxs[k].index),
    ensures
        forall|k: int| 0 <= k <= upto ==> churn_state(#[trigger] states[k]),
    decreases upto,
{
    if upto > 0 {
        lemma_churn_run(states, mids, vals, idxs, upto - 1);
        let m = upto - 1;
        assert(mids[m].wf() && states[m + 1].wf());
        assert(Lariv::push_post(states[m], mids[m], vals[m], idxs[m]));
        law_churn_step(states[m], mids[m], states[m + 1], vals[m], idxs[m]);
    }
}

} // verus!
