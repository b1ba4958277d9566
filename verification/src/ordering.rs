//! Putting things in order.
//!
//! An order is a sequence of places. What comes before what is a relation on
//! places, so that equal things can stay in the order they came in.

use vstd::prelude::*;

verus! {

/// What comes before what.
pub type Relation = spec_fn(int, int) -> bool;

/// Whether an order names a place.
pub open spec fn names(order: Seq<usize>, place: int) -> bool {
    exists|i: int| 0 <= i < order.len() && #[trigger] order[i] == place
}

/// Whether an order names every place below a bound, and each once.
pub open spec fn covers(order: Seq<usize>, count: int) -> bool {
    &&& order.len() == count
    &&& forall|i: int| 0 <= i < order.len() ==> 0 <= #[trigger] order[i] < count
    &&& forall|place: int| 0 <= place < count ==> #[trigger] names(order, place)
}

/// Whether the places of an order follow one another.
pub open spec fn in_order(before: Relation, order: Seq<usize>) -> bool {
    forall|i: int, j: int|
        0 <= i < j < order.len() ==> before(#[trigger] order[i] as int, #[trigger] order[j] as int)
}

/// Whether a relation can order places: nothing comes before what comes
/// before it.
pub open spec fn is_strict(before: Relation) -> bool {
    forall|left: int, right: int| #[trigger] before(left, right) ==> !before(right, left)
}

/// The order of the places below a bound.
pub open spec fn the_order(before: Relation, count: int) -> Seq<usize> {
    choose|order: Seq<usize>| covers(order, count) && in_order(before, order)
}

/// There is one order only.
pub proof fn law_the_order_is_the_only_one(
    before: Relation,
    count: int,
    first: Seq<usize>,
    second: Seq<usize>,
)
    requires
        is_strict(before),
        covers(first, count),
        in_order(before, first),
        covers(second, count),
        in_order(before, second),
    ensures
        first == second,
{
    lemma_orders_agree(before, count, first, second, count);
    assert(first =~= second);
}

/// Two orders name the same places at their first positions.
proof fn lemma_orders_agree(
    before: Relation,
    count: int,
    first: Seq<usize>,
    second: Seq<usize>,
    upto: int,
)
    requires
        is_strict(before),
        covers(first, count),
        in_order(before, first),
        covers(second, count),
        in_order(before, second),
        0 <= upto <= count,
    ensures
        forall|i: int| 0 <= i < upto ==> #[trigger] first[i] == second[i],
    decreases upto,
{
    if upto > 0 {
        lemma_orders_agree(before, count, first, second, upto - 1);
        let at = upto - 1;
        let one = first[at] as int;
        let two = second[at] as int;
        assert(names(second, one) && names(first, two));
        let i = choose|i: int| 0 <= i < second.len() && #[trigger] second[i] == one;
        let j = choose|j: int| 0 <= j < first.len() && #[trigger] first[j] == two;
        if i < at {
            assert(first[i] == second[i]);
            assert(before(first[i] as int, first[at] as int));
        }
        if j < at {
            assert(first[j] == second[j]);
            assert(before(second[j] as int, second[at] as int));
        }
        if i > at && j > at {
            assert(before(second[at] as int, second[i] as int));
            assert(before(first[at] as int, first[j] as int));
        }
    }
}

/// An order that was found is the order.
pub proof fn lemma_found_order(before: Relation, order: Seq<usize>, count: int)
    requires
        is_strict(before),
        covers(order, count),
        in_order(before, order),
    ensures
        order == the_order(before, count),
{
    law_the_order_is_the_only_one(before, count, order, the_order(before, count));
}

// ---- Sorting ---------------------------------------------------------------------------------

/// Whether a relation puts any two places below a bound into an order, and one
/// after another.
pub open spec fn is_total(before: Relation, count: int) -> bool {
    &&& is_strict(before)
    &&& forall|a: int, b: int, c: int| #[trigger]
        before(a, b) && #[trigger] before(b, c) ==> before(a, c)
    &&& forall|a: int, b: int|
        0 <= a < count && 0 <= b < count && a != b ==> #[trigger] before(a, b) || before(b, a)
}

/// Whether an order names the places from one bound to another, and each once.
pub open spec fn covers_range(order: Seq<usize>, from: int, to: int) -> bool {
    &&& order.len() == to - from
    &&& forall|i: int| 0 <= i < order.len() ==> from <= #[trigger] order[i] < to
    &&& forall|place: int| from <= place < to ==> #[trigger] names(order, place)
}

/// Whether two places are below a bound.
pub open spec fn are_places(left: usize, right: usize, count: nat) -> bool {
    left < count && right < count
}

/// Whether a test tells what comes before what, of the places below a bound.
pub open spec fn tells<F: Fn(usize, usize) -> bool>(
    goes_first: F,
    before: Relation,
    count: int,
) -> bool {
    &&& forall|a: usize, b: usize|
        a < count && b < count ==> #[trigger] goes_first.requires((a, b))
    &&& forall|a: usize, b: usize, yes: bool|
        a < count && b < count && #[trigger] goes_first.ensures((a, b), yes) ==> yes == before(
            a as int,
            b as int,
        )
}

proof fn lemma_names_push(order: Seq<usize>, next: usize)
    ensures
        names(order.push(next), next as int),
        forall|place: int| #[trigger] names(order, place) ==> names(order.push(next), place),
{
    let after = order.push(next);
    assert(after[order.len() as int] == next);
    assert forall|place: int| #[trigger] names(order, place) implies names(after, place) by {
        let i = choose|i: int| 0 <= i < order.len() && #[trigger] order[i] == place;
        assert(after[i] == place);
    }
}

/// Two orders of neighbouring places as one.
fn merge<F: Fn(usize, usize) -> bool>(
    left: &Vec<usize>,
    right: &Vec<usize>,
    goes_first: &F,
    count: usize,
    from: Ghost<int>,
    middle: Ghost<int>,
    to: Ghost<int>,
    before: Ghost<Relation>,
) -> (order: Vec<usize>)
    requires
        0 <= from@ <= middle@ <= to@ <= count,
        is_total(before@, count as int),
        tells(*goes_first, before@, count as int),
        covers_range(left@, from@, middle@),
        in_order(before@, left@),
        covers_range(right@, middle@, to@),
        in_order(before@, right@),
    ensures
        covers_range(order@, from@, to@),
        in_order(before@, order@),
{
    let mut order: Vec<usize> = Vec::new();
    let mut i: usize = 0;
    let mut j: usize = 0;
    while i < left.len() || j < right.len()
        invariant
            i <= left@.len(),
            j <= right@.len(),
            order@.len() == i + j,
            0 <= from@ <= middle@ <= to@ <= count,
            is_total(before@, count as int),
            tells(*goes_first, before@, count as int),
            covers_range(left@, from@, middle@),
            in_order(before@, left@),
            covers_range(right@, middle@, to@),
            in_order(before@, right@),
            in_order(before@, order@),
            forall|k: int| 0 <= k < order@.len() ==> from@ <= #[trigger] order@[k] < to@,
            forall|k: int| 0 <= k < i ==> names(order@, #[trigger] left@[k] as int),
            forall|k: int| 0 <= k < j ==> names(order@, #[trigger] right@[k] as int),
            forall|o: int, k: int|
                0 <= o < order@.len() && i <= k < left@.len() ==> (before@)(
                    #[trigger] order@[o] as int,
                    #[trigger] left@[k] as int,
                ),
            forall|o: int, k: int|
                0 <= o < order@.len() && j <= k < right@.len() ==> (before@)(
                    #[trigger] order@[o] as int,
                    #[trigger] right@[k] as int,
                ),
        decreases left@.len() + right@.len() - i - j,
    {
        let ghost known = order@;
        let take_left = if i >= left.len() {
            false
        } else if j >= right.len() {
            true
        } else {
            goes_first(left[i], right[j])
        };
        if take_left {
            let next: usize = left[i];
            proof {
                lemma_names_push(known, next);
                assert forall|k: int| j <= k < right@.len() implies (before@)(
                    next as int,
                    #[trigger] right@[k] as int,
                ) by {
                    assert((before@)(next as int, right@[j as int] as int));
                    if k > j {
                        assert((before@)(right@[j as int] as int, right@[k] as int));
                    }
                }
            }
            order.push(next);
            i += 1;
        } else {
            let next: usize = right[j];
            proof {
                lemma_names_push(known, next);
                assert forall|k: int| i <= k < left@.len() implies (before@)(
                    next as int,
                    #[trigger] left@[k] as int,
                ) by {
                    assert(left@[i as int] != next);
                    assert((before@)(left@[i as int] as int, next as int) || (before@)(
                        next as int,
                        left@[i as int] as int,
                    ));
                    if k > i {
                        assert((before@)(left@[i as int] as int, left@[k] as int));
                    }
                }
            }
            order.push(next);
            j += 1;
        }
        proof {
            let last = known.len() as int;
            assert forall|a: int, b: int| 0 <= a < b < order@.len() implies (before@)(
                #[trigger] order@[a] as int,
                #[trigger] order@[b] as int,
            ) by {
                assert(order@[a] == known[a]);
                if b < last {
                    assert(order@[b] == known[b]);
                }
            }
            assert forall|k: int| 0 <= k < i implies names(order@, #[trigger] left@[k] as int) by {
                if !(take_left && k == i - 1) {
                    assert(names(known, left@[k] as int));
                }
            }
            assert forall|k: int| 0 <= k < j implies names(order@, #[trigger] right@[k] as int) by {
                if take_left || k != j - 1 {
                    assert(names(known, right@[k] as int));
                }
            }
        }
    }
    proof {
        assert forall|place: int| from@ <= place < to@ implies #[trigger] names(order@, place) by {
            if place < middle@ {
                assert(names(left@, place));
                let k = choose|k: int| 0 <= k < left@.len() && #[trigger] left@[k] == place;
                assert(names(order@, left@[k] as int));
            } else {
                assert(names(right@, place));
                let k = choose|k: int| 0 <= k < right@.len() && #[trigger] right@[k] == place;
                assert(names(order@, right@[k] as int));
            }
        }
    }
    order
}

/// The places from one bound to another, in order.
fn sorted_range<F: Fn(usize, usize) -> bool>(
    from: usize,
    to: usize,
    goes_first: &F,
    count: usize,
    before: Ghost<Relation>,
) -> (order: Vec<usize>)
    requires
        from <= to <= count,
        is_total(before@, count as int),
        tells(*goes_first, before@, count as int),
    ensures
        covers_range(order@, from as int, to as int),
        in_order(before@, order@),
    decreases to - from,
{
    if to - from <= 1 {
        let mut order: Vec<usize> = Vec::new();
        if from < to {
            order.push(from);
            assert(order@[0] == from);
        }
        return order;
    }
    let middle: usize = from + (to - from) / 2;
    let left = sorted_range(from, middle, goes_first, count, before);
    let right = sorted_range(middle, to, goes_first, count, before);
    merge(
        &left,
        &right,
        goes_first,
        count,
        Ghost(from as int),
        Ghost(middle as int),
        Ghost(to as int),
        before,
    )
}

/// The places below a bound, in the order that a test tells.
pub(crate) fn sorted<F: Fn(usize, usize) -> bool>(
    count: usize,
    goes_first: F,
    before: Ghost<Relation>,
) -> (order: Vec<usize>)
    requires
        is_total(before@, count as int),
        tells(goes_first, before@, count as int),
    ensures
        covers(order@, count as int),
        in_order(before@, order@),
        order@ == the_order(before@, count as int),
{
    let order = sorted_range(0, count, &goes_first, count, before);
    proof {
        lemma_found_order(before@, order@, count as int);
    }
    order
}

// ---- By number -------------------------------------------------------------------------------

/// What things are ordered by: the first number, then the second, then the
/// third.
pub type Key = (u64, u64, u64);

/// Whether a key is smaller than another.
pub open spec fn smaller(left: Key, right: Key) -> bool {
    left.0 < right.0 || (left.0 == right.0 && (left.1 < right.1 || (left.1 == right.1 && left.2
        < right.2)))
}

/// By key, and by place where the keys are equal.
pub open spec fn by_key(keys: Seq<Key>) -> Relation {
    |left: int, right: int|
        smaller(keys[left], keys[right]) || (keys[left] == keys[right] && left < right)
}

fn is_smaller(left: Key, right: Key) -> (yes: bool)
    ensures
        yes == smaller(left, right),
{
    left.0 < right.0 || (left.0 == right.0 && (left.1 < right.1 || (left.1 == right.1 && left.2
        < right.2)))
}

fn comes_first(keys: &Vec<Key>, left: usize, right: usize) -> (yes: bool)
    requires
        are_places(left, right, keys@.len()),
    ensures
        yes == by_key(keys@)(left as int, right as int),
{
    is_smaller(keys[left], keys[right]) || (!is_smaller(keys[right], keys[left]) && left < right)
}

/// The places of some keys, smallest key first; equal keys stay in the order
/// they came in.
pub fn ascending(keys: &Vec<Key>) -> (order: Vec<usize>)
    ensures
        covers(order@, keys@.len() as int),
        in_order(by_key(keys@), order@),
        order@ == the_order(by_key(keys@), keys@.len() as int),
{
    let goes_first = |left: usize, right: usize| -> (yes: bool)
        requires
            are_places(left, right, keys@.len()),
        ensures
            yes == by_key(keys@)(left as int, right as int),
    {
        comes_first(keys, left, right)
    };
    sorted(keys.len(), goes_first, Ghost(by_key(keys@)))
}

/// Where any two places are in an order, there is an order of all of them.
pub proof fn law_there_is_an_order(before: Relation, count: int) -> (order: Seq<usize>)
    requires
        is_total(before, count),
        0 <= count <= usize::MAX,
    ensures
        covers(order, count),
        in_order(before, order),
    decreases count,
{
    if count == 0 {
        Seq::empty()
    } else {
        let last = (count - 1) as usize;
        let rest = law_there_is_an_order(before, count - 1);
        let at = first_behind(before, rest, last as int);
        lemma_first_behind(before, rest, last as int);
        let order = rest.insert(at, last);
        assert forall|i: int| 0 <= i < order.len() implies 0 <= #[trigger] order[i] < count by {
            if i < at {
                assert(order[i] == rest[i]);
            } else if i > at {
                assert(order[i] == rest[i - 1]);
            }
        }
        assert forall|place: int| 0 <= place < count implies #[trigger] names(order, place) by {
            if place == last {
                assert(order[at] == place);
            } else {
                assert(names(rest, place));
                let i = choose|i: int| 0 <= i < rest.len() && #[trigger] rest[i] == place;
                if i < at {
                    assert(order[i] == place);
                } else {
                    assert(order[i + 1] == place);
                }
            }
        }
        assert forall|i: int, j: int| 0 <= i < j < order.len() implies before(
            #[trigger] order[i] as int,
            #[trigger] order[j] as int,
        ) by {
            let one = if i < at {
                rest[i]
            } else if i == at {
                last
            } else {
                rest[i - 1]
            };
            let two = if j < at {
                rest[j]
            } else if j == at {
                last
            } else {
                rest[j - 1]
            };
            assert(order[i] == one && order[j] == two);
            if i == at {
                assert(before(last as int, rest[at] as int));
                if j - 1 > at {
                    assert(before(rest[at] as int, rest[j - 1] as int));
                }
            } else if j == at {
                assert(!before(last as int, rest[i] as int));
                assert(rest[i] != last);
                assert(before(rest[i] as int, last as int) || before(last as int, rest[i] as int));
            }
        }
        order
    }
}

/// Where the first place of an order that comes behind another one stands.
spec fn first_behind(before: Relation, order: Seq<usize>, place: int) -> int
    decreases order.len(),
{
    if order.len() == 0 {
        0
    } else {
        let at = first_behind(before, order.drop_last(), place);
        if at < order.len() - 1 || before(place, order.last() as int) {
            at
        } else {
            order.len() as int
        }
    }
}

proof fn lemma_first_behind(before: Relation, order: Seq<usize>, place: int)
    ensures
        0 <= first_behind(before, order, place) <= order.len(),
        forall|i: int|
            0 <= i < first_behind(before, order, place) ==> !before(
                place,
                #[trigger] order[i] as int,
            ),
        first_behind(before, order, place) < order.len() ==> before(
            place,
            order[first_behind(before, order, place)] as int,
        ),
    decreases order.len(),
{
    if order.len() > 0 {
        let front = order.drop_last();
        lemma_first_behind(before, front, place);
        let at = first_behind(before, order, place);
        assert forall|i: int| 0 <= i < at implies !before(place, #[trigger] order[i] as int) by {
            if i < front.len() {
                assert(front[i] == order[i]);
            }
        }
        if at < front.len() {
            assert(front[at] == order[at]);
        }
    }
}

/// Of two keys the one with the smaller first number comes first; where those
/// are equal the second numbers decide, and then the third; and equal keys stay
/// in the order they came in.
pub proof fn law_what_keys_are_ordered_by(keys: Seq<Key>, left: int, right: int)
    requires
        0 <= left < keys.len(),
        0 <= right < keys.len(),
    ensures
        keys[left].0 < keys[right].0 ==> by_key(keys)(left, right),
        keys[left].0 == keys[right].0 && keys[left].1 < keys[right].1 ==> by_key(keys)(left, right),
        keys[left].0 == keys[right].0 && keys[left].1 == keys[right].1 && keys[left].2
            < keys[right].2 ==> by_key(keys)(left, right),
        keys[left] == keys[right] ==> (by_key(keys)(left, right) <==> left < right),
        left != right ==> (by_key(keys)(left, right) <==> !by_key(keys)(right, left)),
        is_total(by_key(keys), keys.len() as int),
{
}

} // verus!
