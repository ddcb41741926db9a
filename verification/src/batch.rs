//! Splitting an ordered sequence into bounded, order-preserving batches.

use vstd::prelude::*;

verus! {

/// The reference bound on the number of records in one batch.
pub const MAX_BATCH_SIZE: usize = 5000;

/// The number of batches of at most `size` items that `count` items fill:
/// `count / size`, rounded up.
pub open spec fn batch_count(count: nat, size: nat) -> nat {
    ((count + size - 1) / (size as int)) as nat
}

/// Where batch `i` ends in a sequence of `count` items.
pub open spec fn batch_end(count: nat, size: nat, i: int) -> int {
    if (i + 1) * size <= count {
        (i + 1) * size
    } else {
        count as int
    }
}

/// Batch `i` of `items`: the items from position `i * size` up to the next
/// multiple of `size`, or to the end where that comes first.
pub open spec fn batch<T>(items: Seq<T>, size: nat, i: int) -> Seq<T> {
    items.subrange(i * size, batch_end(items.len(), size, i))
}

/// The batches of at most `size` items that `items` is split into.
pub open spec fn batches_of<T>(items: Seq<T>, size: nat) -> Seq<Seq<T>> {
    Seq::new(batch_count(items.len(), size), |i: int| batch(items, size, i))
}

/// The concatenation of the batches, in order.
pub open spec fn concat<T>(batches: Seq<Seq<T>>) -> Seq<T>
    decreases batches.len(),
{
    if batches.len() == 0 {
        Seq::empty()
    } else {
        concat(batches.drop_last()) + batches.last()
    }
}

/// What each batch holds.
pub open spec fn batch_views<T>(batches: Seq<Vec<T>>) -> Seq<Seq<T>> {
    Seq::new(batches.len(), |i: int| batches[i]@)
}

/// `full` whole batches and a last one of `rest` items make `full + 1` batches.
proof fn lemma_count_with_rest(full: nat, rest: nat, size: nat)
    requires
        0 < rest <= size,
    ensures
        batch_count(full * size + rest, size) == full + 1,
{
    assert((full * size + rest + size - 1) / (size as int) == full + 1) by (nonlinear_arith)
        requires
            0 < rest <= size,
    ;
}

/// How many batches there are, and where each begins and ends.
pub proof fn lemma_batch_bounds(count: nat, size: nat, i: int)
    requires
        size > 0,
        0 <= i < batch_count(count, size),
    ensures
        0 <= i * size < count,
        i * size < batch_end(count, size, i) <= count,
        batch_end(count, size, i) - i * size <= size,
        i + 1 < batch_count(count, size) ==> batch_end(count, size, i) == (i + 1) * size,
        i + 1 < batch_count(count, size) ==> batch_end(count, size, i) - i * size == size,
        i + 1 == batch_count(count, size) ==> batch_end(count, size, i) == count,
{
    let n = batch_count(count, size) as int;
    assert(0 <= i * size < count && (i + 1) * size == i * size + size && (i + 1 < n ==> (i + 1)
        * size < count) && (i + 1 == n ==> (i + 1) * size >= count)) by (nonlinear_arith)
        requires
            size > 0,
            0 <= i < n,
            n == (count + size - 1) / (size as int),
    ;
}

/// The batches up to batch `upto` make up the items before the place where
/// batch `upto` begins.
proof fn lemma_concat_prefix<T>(items: Seq<T>, size: nat, upto: int)
    requires
        size > 0,
        0 <= upto <= batch_count(items.len(), size),
    ensures
        concat(batches_of(items, size).take(upto)) == items.take(
            if upto == batch_count(items.len(), size) {
                items.len() as int
            } else {
                upto * size
            },
        ),
    decreases upto,
{
    let all = batches_of(items, size);
    let n = batch_count(items.len(), size) as int;
    if upto == 0 {
        assert(all.take(0) =~= Seq::<Seq<T>>::empty());
        if n == 0 {
            assert(items.len() == 0) by (nonlinear_arith)
                requires
                    size > 0,
                    (items.len() + size - 1) / (size as int) == 0,
            ;
        }
        assert(0 * size == 0) by (nonlinear_arith);
        assert(concat(all.take(0)) =~= items.take(0));
    } else {
        lemma_concat_prefix(items, size, upto - 1);
        lemma_batch_bounds(items.len(), size, upto - 1);
        assert(all.take(upto).drop_last() =~= all.take(upto - 1));
        assert(all.take(upto).last() == batch(items, size, upto - 1));
        assert((upto - 1) * size + size == upto * size) by (nonlinear_arith);
        let begin = (upto - 1) * size;
        let end = batch_end(items.len(), size, upto - 1);
        assert(concat(all.take(upto - 1)) == items.take(begin));
        assert(all.take(upto).last() == items.subrange(begin, end));
        assert(items.take(begin) + items.subrange(begin, end) =~= items.take(end));
        assert(concat(all.take(upto)) == items.take(end));
    }
}

/// Batching keeps order and size: `count` items make `count / size` batches,
/// rounded up; every batch but the last holds exactly `size` items and the
/// last holds at least one and at most `size`; and the batches joined in
/// order are the items.
pub proof fn lemma_batches_partition<T>(items: Seq<T>, size: nat)
    requires
        size > 0,
    ensures
        batches_of(items, size).len() == batch_count(items.len(), size),
        batch_count(items.len(), size) * size >= items.len(),
        batch_count(items.len(), size) * size < items.len() + size,
        forall|i: int|
            0 <= i < batches_of(items, size).len() - 1 ==> (#[trigger] batches_of(items, size)[i]).len()
                == size,
        forall|i: int|
            0 <= i < batches_of(items, size).len() ==> 1 <= (#[trigger] batches_of(
                items,
                size,
            )[i]).len() <= size,
        concat(batches_of(items, size)) == items,
{
    let all = batches_of(items, size);
    let n = batch_count(items.len(), size);
    assert(n * size >= items.len() && n * size < items.len() + size) by (nonlinear_arith)
        requires
            size > 0,
            n == (items.len() + size - 1) / (size as int),
    ;
    assert forall|i: int| 0 <= i < all.len() implies 1 <= (#[trigger] all[i]).len() <= size && (i
        < all.len() - 1 ==> all[i].len() == size) by {
        lemma_batch_bounds(items.len(), size, i);
    }
    lemma_concat_prefix(items, size, n as int);
    assert(all.take(n as int) =~= all);
    assert(items.take(items.len() as int) =~= items);
}

/// No items make no batches.
pub proof fn lemma_no_items_no_batches<T>(items: Seq<T>, size: nat)
    requires
        size > 0,
        items.len() == 0,
    ensures
        batches_of(items, size) == Seq::<Seq<T>>::empty(),
{
    assert(batch_count(0, size) == 0) by (nonlinear_arith)
        requires
            size > 0,
    ;
    assert(batches_of(items, size) =~= Seq::<Seq<T>>::empty());
}

/// What the batches of a sequence hold is the batches of what the sequence holds.
pub proof fn lemma_batches_deep_view<T: DeepView>(items: Vec<T>, batches: Vec<Vec<T>>, size: nat)
    requires
        size > 0,
        batch_views(batches@) == batches_of(items@, size),
    ensures
        batches.deep_view() == batches_of(items.deep_view(), size),
{
    let deep = batches_of(items.deep_view(), size);
    assert(items.deep_view().len() == items@.len());
    assert(batch_views(batches@).len() == batches@.len());
    assert(batches_of(items@, size).len() == batch_count(items@.len(), size));
    assert(batches.deep_view().len() == deep.len());
    assert forall|i: int| 0 <= i < deep.len() implies #[trigger] batches.deep_view()[i] == deep[i] by {
        lemma_batch_bounds(items@.len(), size, i);
        assert(batch_views(batches@)[i] == batches@[i]@);
        assert(batches@[i]@ == batch(items@, size, i));
        assert(batches@[i].deep_view() =~= deep[i]);
    }
    assert(batches.deep_view() =~= deep);
}


/// Splits `items` into batches of at most `size` items, in order.
pub fn split_batches<T>(items: Vec<T>, size: usize) -> (batches: Vec<Vec<T>>)
    requires
        size > 0,
    ensures
        batch_views(batches@) == batches_of(items@, size as nat),
{
    let ghost all = items@;
    let mut batches: Vec<Vec<T>> = Vec::new();
    let mut rest = items;
    let ghost mut start: int = 0;
    assert(0 * size == 0) by (nonlinear_arith);
    while rest.len() > size
        invariant
            size > 0,
            start == batches.len() * size,
            start + rest.len() == all.len(),
            rest@ == all.subrange(start, all.len() as int),
            rest.len() > 0 || all.len() == 0,
            forall|i: int| 0 <= i < batches.len() ==> (#[trigger] batches@[i])@ == batch(all, size as nat, i),
        decreases rest.len(),
    {
        let ghost done = batches.len() as int;
        let tail = rest.split_off(size);
        proof {
            assert((done + 1) * size == done * size + size) by (nonlinear_arith);
            assert(rest@ =~= batch(all, size as nat, done));
            assert(tail@ =~= all.subrange(start + size, all.len() as int));
            start = start + size;
        }
        batches.push(rest);
        rest = tail;
    }
    let ghost full = batches.len() as nat;
    if rest.len() > 0 {
        proof {
            lemma_count_with_rest(full, rest.len() as nat, size as nat);
            assert((full + 1) * size == full * size + size) by (nonlinear_arith);
            assert(rest@ =~= batch(all, size as nat, full as int));
        }
        batches.push(rest);
    } else {
        proof {
            lemma_no_items_no_batches(all, size as nat);
            assert(full == 0) by (nonlinear_arith)
                requires
                    full * size == 0,
                    size > 0,
            ;
        }
    }
    assert(batch_views(batches@) =~= batches_of(all, size as nat));
    batches
}

} // verus!
