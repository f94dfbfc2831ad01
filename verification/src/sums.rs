//! Amounts added up over lists, and how often an item stands in one.

use vstd::prelude::*;

verus! {

/// What a list of items adds up to.
pub open spec fn added<T>(list: Seq<T>, amount: spec_fn(T) -> int) -> int
    decreases list.len(),
{
    if list.len() == 0 {
        0
    } else {
        added(list.drop_last(), amount) + amount(list.last())
    }
}

/// One item less takes its amount away.
pub proof fn added_without<T>(list: Seq<T>, amount: spec_fn(T) -> int, i: int)
    requires
        0 <= i < list.len(),
    ensures
        added(list, amount) == added(list.remove(i), amount) + amount(list[i]),
    decreases list.len(),
{
    if i == list.len() - 1 {
        assert(list.remove(i) =~= list.drop_last());
    } else {
        added_without(list.drop_last(), amount, i);
        assert(list.remove(i).drop_last() =~= list.drop_last().remove(i));
        assert(list.remove(i).last() == list.last());
    }
}

/// The order of the items does not matter.
pub proof fn added_in_any_order<T>(a: Seq<T>, b: Seq<T>, amount: spec_fn(T) -> int)
    requires
        a.to_multiset() == b.to_multiset(),
    ensures
        added(a, amount) == added(b, amount),
    decreases a.len(),
{
    broadcast use vstd::seq_lib::group_to_multiset_ensures;

    assert(a.len() == a.to_multiset().len());
    assert(b.len() == b.to_multiset().len());
    if a.len() > 0 {
        let x = a.last();
        assert(a.contains(x));
        assert(b.to_multiset().count(x) > 0);
        assert(b.contains(x));
        let j = choose|j: int| 0 <= j < b.len() && b[j] == x;
        let last = a.len() - 1;
        assert(a.remove(last) =~= a.drop_last());
        assert(a.remove(last).to_multiset() =~= a.to_multiset().remove(x));
        assert(b.remove(j).to_multiset() =~= b.to_multiset().remove(x));
        added_in_any_order(a.drop_last(), b.remove(j), amount);
        added_without(b, amount, j);
    }
}

/// Two lists add up to what they add up to together.
pub proof fn added_parts<T>(a: Seq<T>, b: Seq<T>, amount: spec_fn(T) -> int)
    ensures
        added(a + b, amount) == added(a, amount) + added(b, amount),
    decreases b.len(),
{
    if b.len() == 0 {
        assert(a + b =~= a);
    } else {
        assert((a + b).drop_last() =~= a + b.drop_last());
        assert((a + b).last() == b.last());
        added_parts(a, b.drop_last(), amount);
    }
}

/// Another item in a place changes the sum by the difference.
pub proof fn added_with_other<T>(list: Seq<T>, amount: spec_fn(T) -> int, i: int, item: T)
    requires
        0 <= i < list.len(),
    ensures
        added(list.update(i, item), amount) == added(list, amount) - amount(list[i]) + amount(item),
    decreases list.len(),
{
    let changed = list.update(i, item);
    if i == list.len() - 1 {
        assert(changed.drop_last() =~= list.drop_last());
        assert(changed.last() == item);
    } else {
        added_with_other(list.drop_last(), amount, i, item);
        assert(changed.drop_last() =~= list.drop_last().update(i, item));
        assert(changed.last() == list.last());
    }
}

/// One item more adds its amount.
pub proof fn added_with_one_more<T>(list: Seq<T>, amount: spec_fn(T) -> int, item: T)
    ensures
        added(list.push(item), amount) == added(list, amount) + amount(item),
{
    assert(list.push(item).drop_last() =~= list);
}

/// Amounts that are not negative add up to no less than each of them.
pub proof fn added_is_no_less<T>(list: Seq<T>, amount: spec_fn(T) -> int)
    requires
        forall|i: int| 0 <= i < list.len() ==> amount(#[trigger] list[i]) >= 0,
    ensures
        added(list, amount) >= 0,
        forall|i: int| 0 <= i < list.len() ==> amount(#[trigger] list[i]) <= added(list, amount),
    decreases list.len(),
{
    if list.len() > 0 {
        let part = list.drop_last();
        assert forall|i: int| 0 <= i < part.len() implies amount(#[trigger] part[i]) >= 0 by {
            assert(part[i] == list[i]);
        }
        added_is_no_less(part, amount);
        assert forall|i: int| 0 <= i < list.len() implies amount(#[trigger] list[i]) <= added(
            list,
            amount,
        ) by {
            if i < part.len() {
                assert(part[i] == list[i]);
            }
        }
    }
}

/// How often an item stands in a list.
pub open spec fn times<T>(list: Seq<T>, item: T) -> nat {
    list.to_multiset().count(item)
}

pub proof fn times_of_none<T>(item: T)
    ensures
        times(Seq::<T>::empty(), item) == 0,
{
    broadcast use vstd::seq_lib::group_to_multiset_ensures;

    assert(!Seq::<T>::empty().contains(item));
}

pub proof fn times_of_push<T>(list: Seq<T>, last: T, item: T)
    ensures
        times(list.push(last), item) == times(list, item) + if last == item {
            1nat
        } else {
            0
        },
{
    broadcast use vstd::seq_lib::group_to_multiset_ensures;

}

pub proof fn times_of_parts<T>(a: Seq<T>, b: Seq<T>, item: T)
    ensures
        times(a + b, item) == times(a, item) + times(b, item),
{
    vstd::seq_lib::lemma_multiset_commutative(a, b);
}

/// Counts the places of a list at which something holds.
pub open spec fn places_where(count: nat, holds: spec_fn(int) -> bool) -> nat
    decreases count,
{
    if count == 0 {
        0
    } else {
        places_where((count - 1) as nat, holds) + if holds(count - 1) {
            1nat
        } else {
            0
        }
    }
}

/// What holds at the same places holds at as many.
pub proof fn same_places(count: nat, a: spec_fn(int) -> bool, b: spec_fn(int) -> bool)
    requires
        forall|i: int| 0 <= i < count ==> #[trigger] a(i) == b(i),
    ensures
        places_where(count, a) == places_where(count, b),
    decreases count,
{
    if count > 0 {
        same_places((count - 1) as nat, a, b);
        assert(a(count - 1) == b(count - 1));
    }
}

/// What a list was cut down to comes from the list.
pub proof fn filtered_from<T>(list: Seq<T>, wanted: spec_fn(T) -> bool, k: int) -> (i: int)
    requires
        0 <= k < list.filter(wanted).len(),
    ensures
        0 <= i < list.len(),
        list[i] == list.filter(wanted)[k],
        wanted(list[i]),
    decreases list.len(),
{
    reveal(Seq::filter);
    let less = list.drop_last();
    if k < less.filter(wanted).len() {
        let i = filtered_from(less, wanted, k);
        assert(less[i] == list[i]);
        i
    } else {
        list.len() - 1
    }
}

} // verus!
