# lariv

A vector-like store whose elements can be removed at any place without moving the
others, verified with Verus.

Elements live in nodes of a fixed number of slots. `push` writes into the first free
slot from a cursor on; when there is none and enough elements were removed since the
cursor last wrapped (an allocation threshold of 30% of the capacity has run down), the
cursor wraps to the first node; otherwise a new node is added behind the last one.
Every slot keeps an epoch, so that with `LarivEpoch` an index can tell whether its slot
still holds the element it was handed out for.

- `src/lariv.rs`: the store, its model (`Seq<Seq<Option<T>>>` of slots, epochs, cursor,
  threshold) and the verified operations.
- `src/option.rs`: the per-slot tag and epoch (`AtomicOptionTag`), claims and guards.
- `src/epoch.rs`: the `Epoch` trait with `NoEpoch` and `LarivEpoch`.
- `src/index.rs`: `LarivIndex` and its 128-bit form.
- `src/iter.rs`: walks over the elements in slot order.
- `src/once_cell.rs`: a write-once cell.
- `src/laws.rs`: properties relating several operations, proved.
- `app/lib.rs`: a lock around the store for use from many threads, and formatting.
