//! Ordered listings of numbers and ranked items.

use std::collections::BTreeSet;

use vstd::prelude::*;

verus! {

broadcast use vstd::std_specs::btree::group_btree_axioms;

pub open spec fn strictly_increasing(numbers: Seq<u64>) -> bool {
    forall|i: int, j: int| 0 <= i < j < numbers.len() ==> numbers[i] < numbers[j]
}

/// The members of a finite set of numbers, smallest first.
pub open spec fn ascending(members: Set<u64>) -> Seq<u64> {
    choose|listing: Seq<u64>|
        strictly_increasing(listing) && #[trigger] listing.to_set() == members
}

/// There is one strictly increasing listing of a set.
pub proof fn ascending_is_unique(listing: Seq<u64>)
    requires
        strictly_increasing(listing),
    ensures
        ascending(listing.to_set()) == listing,
{
    let other = ascending(listing.to_set());
    assert(strictly_increasing(other) && other.to_set() == listing.to_set());
    lemma_same_listing(listing, other);
}

/// Every finite set of numbers has its listing.
pub proof fn ascending_lists_the_set(members: Set<u64>)
    requires
        members.finite(),
    ensures
        strictly_increasing(ascending(members)),
        ascending(members).to_set() == members,
{
    let listing = lemma_listing_exists(members);
    ascending_is_unique(listing);
}

proof fn lemma_listing_exists(members: Set<u64>) -> (listing: Seq<u64>)
    requires
        members.finite(),
    ensures
        strictly_increasing(listing),
        listing.to_set() == members,
    decreases members.len(),
{
    if members.len() == 0 {
        assert(members =~= Set::empty());
        let listing = Seq::<u64>::empty();
        assert(listing.to_set() =~= members);
        listing
    } else {
        let ghost largest = lemma_largest(members);
        let shorter = lemma_listing_exists(members.remove(largest));
        let listing = shorter.push(largest);
        assert forall|i: int, j: int| 0 <= i < j < listing.len() implies listing[i]
            < listing[j] by {
            if j == shorter.len() {
                assert(shorter.to_set().contains(shorter[i]));
            }
        }
        assert forall|n: u64| listing.to_set().contains(n) == members.contains(n) by {
            if members.contains(n) {
                if n == largest {
                    assert(listing[shorter.len() as int] == n);
                } else {
                    assert(shorter.to_set().contains(n));
                    let i = choose|i: int| 0 <= i < shorter.len() && shorter[i] == n;
                    assert(listing[i] == n);
                }
            }
            if listing.to_set().contains(n) && n != largest {
                let i = choose|i: int| 0 <= i < listing.len() && listing[i] == n;
                assert(shorter[i] == n);
                assert(shorter.to_set().contains(n));
            }
        }
        assert(listing.to_set() =~= members);
        listing
    }
}

proof fn lemma_largest(members: Set<u64>) -> (largest: u64)
    requires
        members.finite(),
        members.len() > 0,
    ensures
        members.contains(largest),
        forall|n: u64| members.contains(n) ==> n <= largest,
    decreases members.len(),
{
    let some = members.choose();
    let rest = members.remove(some);
    if rest.len() == 0 {
        assert forall|n: u64| members.contains(n) implies n <= some by {
            if n != some {
                assert(rest.contains(n));
            }
        }
        some
    } else {
        let largest = lemma_largest(rest);
        assert forall|n: u64| members.contains(n) implies n <= if some > largest {
            some
        } else {
            largest
        } by {
            if n != some {
                assert(rest.contains(n));
            }
        }
        if some > largest {
            some
        } else {
            largest
        }
    }
}

proof fn lemma_same_listing(left: Seq<u64>, right: Seq<u64>)
    requires
        strictly_increasing(left),
        strictly_increasing(right),
        left.to_set() == right.to_set(),
    ensures
        left == right,
    decreases left.len(),
{
    if left.len() == 0 {
        if right.len() > 0 {
            assert(right.to_set().contains(right[0]));
            assert(left.to_set().contains(right[0]));
            assert(false);
        }
        assert(left =~= right);
    } else {
        assert(left.to_set().contains(left.last()));
        assert(right.to_set().contains(left.last()));
        let at = choose|i: int| 0 <= i < right.len() && right[i] == left.last();
        assert(right.to_set().contains(right.last()));
        assert(left.to_set().contains(right.last()));
        let back = choose|i: int| 0 <= i < left.len() && left[i] == right.last();
        assert(left.last() == right.last()) by {
            if at < right.len() - 1 {
                assert(right[at] < right[right.len() - 1]);
                if back < left.len() - 1 {
                    assert(left[back] < left[left.len() - 1]);
                }
            }
        }
        assert(left.drop_last().to_set() =~= right.drop_last().to_set()) by {
            assert forall|n: u64|
                left.drop_last().to_set().contains(n) == right.drop_last().to_set().contains(n) by {
                if left.drop_last().to_set().contains(n) {
                    let i = choose|i: int| 0 <= i < left.len() - 1 && left.drop_last()[i] == n;
                    assert(left[i] == n && left[i] < left[left.len() - 1]);
                    assert(left.to_set().contains(n));
                    assert(right.to_set().contains(n));
                    let j = choose|j: int| 0 <= j < right.len() && right[j] == n;
                    assert(right.drop_last()[j] == n);
                }
                if right.drop_last().to_set().contains(n) {
                    let i = choose|i: int| 0 <= i < right.len() - 1 && right.drop_last()[i] == n;
                    assert(right[i] == n && right[i] < right[right.len() - 1]);
                    assert(right.to_set().contains(n));
                    assert(left.to_set().contains(n));
                    let j = choose|j: int| 0 <= j < left.len() && left[j] == n;
                    assert(left.drop_last()[j] == n);
                }
            }
        }
        lemma_same_listing(left.drop_last(), right.drop_last());
        assert(left =~= left.drop_last().push(left.last()));
        assert(right =~= right.drop_last().push(right.last()));
    }
}

/// References to numbers are ordered as the numbers are.
proof fn lemma_references_are_ordered()
    ensures
        vstd::laws_cmp::obeys_cmp::<&u64>(),
{
    reveal(vstd::laws_eq::obeys_eq_spec_properties);
    reveal(vstd::laws_cmp::obeys_partial_cmp_spec_properties);
    reveal(vstd::laws_cmp::obeys_cmp_partial_ord);
    reveal(vstd::laws_cmp::obeys_cmp_ord);
}

/// The keys of an ordered collection of numbers are strictly increasing.
pub(crate) proof fn lemma_keys_increase(keys: Seq<&u64>)
    requires
        vstd::std_specs::btree::increasing_seq(keys),
    ensures
        strictly_increasing(keys.unref()),
{
    lemma_references_are_ordered();
    assert forall|i: int, j: int| 0 <= i < j < keys.unref().len() implies keys.unref()[i]
        < keys.unref()[j] by {
        assert(vstd::std_specs::cmp::OrdSpec::cmp_spec(&keys[i], &keys[j]) is Less);
    }
}

/// List a set of numbers, smallest first.
pub fn ascending_members(members: &BTreeSet<u64>) -> (listing: Vec<u64>)
    ensures
        strictly_increasing(listing@),
        listing@.to_set() == members@,
        listing@ == ascending(members@),
{
    let mut listing: Vec<u64> = Vec::new();
    let ghost order = vstd::std_specs::iter::IteratorSpec::remaining(
        &vstd::std_specs::btree::spec_btree_keys_iter(members),
    );
    proof {
        lemma_keys_increase(order);
    }
    for member in it: members.iter()
        invariant
            it.seq() == order,
            listing@ == order.unref().take(it.index()),
    {
        listing.push(*member);
        assert(order.unref().take(it.index() + 1) =~= order.unref().take(it.index()).push(*member));
    }
    proof {
        assert(listing@ =~= order.unref());
        ascending_is_unique(listing@);
    }
    listing
}

/// The distinct numbers of a list, smallest first.
pub fn distinct_ascending(numbers: &Vec<u64>) -> (listing: Vec<u64>)
    ensures
        strictly_increasing(listing@),
        listing@.to_set() == numbers@.to_set(),
        listing@ == ascending(numbers@.to_set()),
{
    let mut members: BTreeSet<u64> = BTreeSet::new();
    let mut index: usize = 0;
    assert(numbers@.take(0).to_set() =~= Set::empty());
    while index < numbers.len()
        invariant
            index <= numbers.len(),
            members@ == numbers@.take(index as int).to_set(),
        decreases numbers.len() - index,
    {
        members.insert(numbers[index]);
        proof {
            let before = numbers@.take(index as int);
            let after = numbers@.take(index + 1);
            assert(after =~= before.push(numbers@[index as int]));
            assert(after.to_set() =~= before.to_set().insert(numbers@[index as int])) by {
                assert forall|n: u64|
                    after.to_set().contains(n) == before.to_set().insert(
                        numbers@[index as int],
                    ).contains(n) by {
                    if before.to_set().contains(n) {
                        let i = choose|i: int| 0 <= i < before.len() && before[i] == n;
                        assert(after[i] == n);
                    }
                    if n == numbers@[index as int] {
                        assert(after[index as int] == n);
                    }
                }
            }
        }
        index = index + 1;
    }
    assert(numbers@.take(numbers@.len() as int) =~= numbers@);
    ascending_members(&members)
}

/// Items with a place in an order, in which ties are left open.
pub trait Ranked: Sized {
    /// Whether an item may stand before another.
    spec fn precedes(self, other: Self) -> bool;

    proof fn precedes_is_total(left: Self, right: Self)
        ensures
            left.precedes(right) || right.precedes(left),
    ;

    proof fn precedes_is_transitive(first: Self, second: Self, third: Self)
        requires
            first.precedes(second),
            second.precedes(third),
        ensures
            first.precedes(third),
    ;

    fn may_precede(&self, other: &Self) -> (result: bool)
        ensures
            result == self.precedes(*other),
    ;
}

/// Every item may stand before all that follow it.
pub open spec fn in_order<T: Ranked>(items: Seq<T>) -> bool {
    forall|i: int, j: int| 0 <= i < j < items.len() ==> items[i].precedes(items[j])
}

/// The same items, each as often, in order.
pub open spec fn orders<T: Ranked>(sorted: Seq<T>, items: Seq<T>) -> bool {
    in_order(sorted) && sorted.to_multiset() == items.to_multiset()
}

/// Among some items, two of which each may stand before the other are the same.
pub open spec fn untied<T: Ranked>(items: Seq<T>) -> bool {
    forall|left: T, right: T|
        items.contains(left) && items.contains(right) && #[trigger] left.precedes(right)
            && right.precedes(left) ==> left == right
}

/// Items without ties have one order only, whatever order they came in.
pub proof fn untied_items_have_one_order<T: Ranked>(left: Seq<T>, right: Seq<T>, items: Seq<T>)
    requires
        untied(items),
        orders(left, items),
        orders(right, items),
    ensures
        left == right,
{
    lemma_same_members(left, items);
    assert(untied(left)) by {
        assert forall|x: T, y: T|
            left.contains(x) && left.contains(y) && #[trigger] x.precedes(y) && y.precedes(
                x,
            ) implies x == y by {
            assert(items.contains(x) && items.contains(y));
        }
    }
    lemma_one_order(left, right);
}

proof fn lemma_same_members<T>(left: Seq<T>, right: Seq<T>)
    requires
        left.to_multiset() == right.to_multiset(),
    ensures
        left.len() == right.len(),
        forall|item: T| #[trigger] left.contains(item) == right.contains(item),
{
    left.to_multiset_ensures();
    right.to_multiset_ensures();
    assert forall|item: T| #[trigger] left.contains(item) == right.contains(item) by {
        vstd::seq_lib::to_multiset_contains(left, item);
        vstd::seq_lib::to_multiset_contains(right, item);
    }
}

proof fn lemma_one_order<T: Ranked>(left: Seq<T>, right: Seq<T>)
    requires
        untied(left),
        in_order(left),
        in_order(right),
        left.to_multiset() == right.to_multiset(),
    ensures
        left == right,
    decreases left.len(),
{
    lemma_same_members(left, right);
    if left.len() > 0 {
        let x = left.last();
        let y = right.last();
        assert(left.contains(x) && right.contains(y));
        assert(left.contains(y) && right.contains(x));
        let i = choose|i: int| 0 <= i < left.len() && left[i] == y;
        let j = choose|j: int| 0 <= j < right.len() && right[j] == x;
        if i < left.len() - 1 && j < right.len() - 1 {
            assert(left[i].precedes(left[left.len() - 1]));
            assert(right[j].precedes(right[right.len() - 1]));
        }
        assert(x == y);
        let shorter = left.drop_last();
        let other = right.drop_last();
        assert(shorter.push(x) =~= left);
        assert(other.push(y) =~= right);
        vstd::seq_lib::to_multiset_build(shorter, x);
        vstd::seq_lib::to_multiset_build(other, y);
        assert(shorter.to_multiset() =~= left.to_multiset().remove(x));
        assert(other.to_multiset() =~= right.to_multiset().remove(y));
        assert(untied(shorter)) by {
            assert forall|a: T, b: T|
                shorter.contains(a) && shorter.contains(b) && #[trigger] a.precedes(b)
                    && b.precedes(a) implies a == b by {
                let m = choose|m: int| 0 <= m < shorter.len() && shorter[m] == a;
                let n = choose|n: int| 0 <= n < shorter.len() && shorter[n] == b;
                assert(left[m] == a && left[n] == b);
            }
        }
        assert forall|m: int, n: int| 0 <= m < n < shorter.len() implies shorter[m].precedes(
            shorter[n],
        ) by {
            assert(left[m].precedes(left[n]));
        }
        assert forall|m: int, n: int| 0 <= m < n < other.len() implies other[m].precedes(
            other[n],
        ) by {
            assert(right[m].precedes(right[n]));
        }
        lemma_one_order(shorter, other);
    }
}

/// Put items in order.
pub fn sort<T: Ranked>(items: Vec<T>) -> (sorted: Vec<T>)
    ensures
        orders(sorted@, items@),
        sorted@.len() == items@.len(),
{
    let mut sorted: Vec<T> = Vec::new();
    assert(items@.take(0) =~= Seq::<T>::empty());
    for item in it: items
        invariant
            it.seq() == items@,
            in_order(sorted@),
            sorted@.len() == it.index(),
            sorted@.to_multiset() == items@.take(it.index()).to_multiset(),
    {
        let ghost before = sorted@;
        let mut place: usize = sorted.len();
        while place > 0 && !sorted[place - 1].may_precede(&item)
            invariant
                place <= sorted.len(),
                sorted@ == before,
                in_order(before),
                forall|i: int| place <= i < before.len() ==> item.precedes(#[trigger] before[i]),
            decreases place,
        {
            proof {
                T::precedes_is_total(before[place - 1], item);
            }
            place = place - 1;
        }
        let ghost added = item;
        sorted.insert(place, item);
        proof {
            let after = sorted@;
            assert(after == before.insert(place as int, added));
            assert forall|i: int, j: int| 0 <= i < j < after.len() implies after[i].precedes(
                after[j],
            ) by {
                if i < place && j == place {
                    if i < place - 1 {
                        assert(before[i].precedes(before[place - 1]));
                        T::precedes_is_transitive(before[i], before[place - 1], added);
                    }
                } else if i < place && j > place {
                    assert(before[i].precedes(before[j - 1]));
                } else if i > place {
                    assert(before[i - 1].precedes(before[j - 1]));
                } else if i == place {
                    assert(added.precedes(before[j - 1]));
                }
            }
            vstd::seq_lib::to_multiset_insert(before, place as int, added);
            let taken = items@.take(it.index());
            vstd::seq_lib::to_multiset_build(taken, added);
            assert(items@.take(it.index() + 1) =~= taken.push(added));
        }
    }
    assert(items@.take(items@.len() as int) =~= items@);
    sorted
}

} // verus!
