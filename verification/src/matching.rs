//! How well a typed name matches a remembered directory.

use crate::paths::{file_name, last_name, law_the_name_behind_the_last_slash};
use crate::text::{compose, composed, to_chars, to_text};
use vstd::prelude::*;

verus! {

// ---- Folding ---------------------------------------------------------------------------------

/// A text in lower case.
pub uninterp spec fn lower_case(text: Seq<char>) -> Seq<char>;

/// `str::to_lowercase`: the lowercase equivalent of the text by the Unicode
/// character database, a function of the text alone. What it is for a given
/// text is not described here.
#[verifier::external_body]
fn lowered(text: &str) -> (lower: String)
    ensures
        lower@ == lower_case(text@),
{
    text.to_lowercase()
}

/// One side of a comparison: composed first, so that a decomposed accent is
/// the same letter as a precomposed one, then in lower case.
pub open spec fn folding(text: Seq<char>) -> Seq<char> {
    lower_case(composed(text))
}

/// Fold one side of a comparison.
pub fn folded(value: &str) -> (chars: Vec<char>)
    ensures
        chars@ == folding(value@),
{
    let normal = compose(value);
    let lower = lowered(&normal);
    to_chars(&lower)
}

// ---- Subsequences ----------------------------------------------------------------------------

/// Whether a text occurs in another with gaps allowed.
pub open spec fn subsequence(needle: Seq<char>, haystack: Seq<char>) -> bool
    decreases haystack.len(),
{
    if needle.len() == 0 {
        true
    } else if haystack.len() == 0 {
        false
    } else if needle[0] == haystack[0] {
        subsequence(needle.skip(1), haystack.skip(1))
    } else {
        subsequence(needle, haystack.skip(1))
    }
}

pub fn is_subsequence(needle: &[char], haystack: &[char]) -> (yes: bool)
    ensures
        yes == subsequence(needle@, haystack@),
{
    let mut wanted: usize = 0;
    let mut i: usize = 0;
    assert(needle@.skip(0) =~= needle@);
    assert(haystack@.skip(0) =~= haystack@);
    while i < haystack.len() && wanted < needle.len()
        invariant
            i <= haystack@.len(),
            wanted <= needle@.len(),
            subsequence(needle@.skip(wanted as int), haystack@.skip(i as int)) == subsequence(
                needle@,
                haystack@,
            ),
        decreases haystack@.len() - i,
    {
        assert(needle@.skip(wanted as int).skip(1) =~= needle@.skip(wanted + 1));
        assert(haystack@.skip(i as int).skip(1) =~= haystack@.skip(i + 1));
        if needle[wanted] == haystack[i] {
            wanted += 1;
        }
        i += 1;
    }
    wanted == needle.len()
}

/// Whether some places of a text, in rising order, hold the characters of
/// another.
pub open spec fn embeds(places: Seq<int>, needle: Seq<char>, haystack: Seq<char>) -> bool {
    &&& places.len() == needle.len()
    &&& forall|i: int|
        0 <= i < places.len() ==> 0 <= #[trigger] places[i] < haystack.len() && haystack[places[i]]
            == needle[i]
    &&& forall|i: int, j: int|
        0 <= i < j < places.len() ==> #[trigger] places[i] < #[trigger] places[j]
}

proof fn lemma_embedding_of_subsequence(needle: Seq<char>, haystack: Seq<char>) -> (places: Seq<int>)
    requires
        subsequence(needle, haystack),
    ensures
        embeds(places, needle, haystack),
    decreases haystack.len(),
{
    if needle.len() == 0 {
        Seq::empty()
    } else {
        let rest = haystack.skip(1);
        if needle[0] == haystack[0] {
            let inner = lemma_embedding_of_subsequence(needle.skip(1), rest);
            let places = seq![0int] + Seq::new(inner.len(), |i: int| inner[i] + 1);
            assert forall|i: int| 0 <= i < places.len() implies 0 <= #[trigger] places[i]
                < haystack.len() && haystack[places[i]] == needle[i] by {
                if i > 0 {
                    assert(places[i] == inner[i - 1] + 1);
                    assert(rest[inner[i - 1]] == needle.skip(1)[i - 1]);
                }
            }
            assert forall|i: int, j: int| 0 <= i < j < places.len() implies #[trigger] places[i]
                < #[trigger] places[j] by {
                assert(places[j] == inner[j - 1] + 1);
                if i > 0 {
                    assert(places[i] == inner[i - 1] + 1);
                    assert(inner[i - 1] < inner[j - 1]);
                }
            }
            places
        } else {
            let inner = lemma_embedding_of_subsequence(needle, rest);
            let places = Seq::new(inner.len(), |i: int| inner[i] + 1);
            assert forall|i: int| 0 <= i < places.len() implies 0 <= #[trigger] places[i]
                < haystack.len() && haystack[places[i]] == needle[i] by {
                assert(rest[inner[i]] == needle[i]);
            }
            assert forall|i: int, j: int| 0 <= i < j < places.len() implies #[trigger] places[i]
                < #[trigger] places[j] by {
                assert(inner[i] < inner[j]);
            }
            places
        }
    }
}

proof fn lemma_subsequence_of_embedding(
    places: Seq<int>,
    needle: Seq<char>,
    haystack: Seq<char>,
)
    requires
        embeds(places, needle, haystack),
    ensures
        subsequence(needle, haystack),
    decreases haystack.len(),
{
    if needle.len() > 0 {
        assert(places[0] < haystack.len());
        let rest = haystack.skip(1);
        if needle[0] == haystack[0] {
            let tail = needle.skip(1);
            let inner = Seq::new(tail.len(), |i: int| places[i + 1] - 1);
            assert forall|i: int| 0 <= i < inner.len() implies 0 <= #[trigger] inner[i]
                < rest.len() && rest[inner[i]] == tail[i] by {
                assert(places[0] < places[i + 1]);
                assert(haystack[places[i + 1]] == needle[i + 1]);
            }
            assert forall|i: int, j: int| 0 <= i < j < inner.len() implies #[trigger] inner[i]
                < #[trigger] inner[j] by {
                assert(places[i + 1] < places[j + 1]);
            }
            lemma_subsequence_of_embedding(inner, tail, rest);
        } else {
            let inner = Seq::new(needle.len(), |i: int| places[i] - 1);
            assert(places[0] != 0);
            assert forall|i: int| 0 <= i < inner.len() implies 0 <= #[trigger] inner[i]
                < rest.len() && rest[inner[i]] == needle[i] by {
                if i > 0 {
                    assert(places[0] < places[i]);
                }
                assert(haystack[places[i]] == needle[i]);
            }
            assert forall|i: int, j: int| 0 <= i < j < inner.len() implies #[trigger] inner[i]
                < #[trigger] inner[j] by {
                assert(places[i] < places[j]);
            }
            lemma_subsequence_of_embedding(inner, needle, rest);
        }
    }
}

/// A name matches by subsequence exactly where its characters stand in the
/// other text in their order, wherever they stand.
pub proof fn law_a_subsequence_is_an_embedding(needle: Seq<char>, haystack: Seq<char>)
    ensures
        subsequence(needle, haystack) <==> exists|places: Seq<int>|
            embeds(places, needle, haystack),
{
    if subsequence(needle, haystack) {
        let places = lemma_embedding_of_subsequence(needle, haystack);
        assert(embeds(places, needle, haystack));
    }
    if exists|places: Seq<int>| embeds(places, needle, haystack) {
        let places = choose|places: Seq<int>| embeds(places, needle, haystack);
        lemma_subsequence_of_embedding(places, needle, haystack);
    }
}

// ---- Edit distance ---------------------------------------------------------------------------

pub open spec fn least(left: nat, right: nat) -> nat {
    if left <= right {
        left
    } else {
        right
    }
}

/// The Levenshtein distance: the fewest characters to change, add or take
/// away that make one text the other.
pub open spec fn edit_distance(left: Seq<char>, right: Seq<char>) -> nat
    decreases left.len() + right.len(),
{
    if left.len() == 0 {
        right.len()
    } else if right.len() == 0 {
        left.len()
    } else {
        let cost: nat = if left.last() == right.last() {
            0
        } else {
            1
        };
        least(
            least(
                edit_distance(left.drop_last(), right.drop_last()) + cost,
                edit_distance(left.drop_last(), right) + 1,
            ),
            edit_distance(left, right.drop_last()) + 1,
        )
    }
}

/// The distance is at least the difference of the lengths, and at most the
/// longer of them.
pub proof fn lemma_edit_distance_bounds(left: Seq<char>, right: Seq<char>)
    ensures
        edit_distance(left, right) >= left.len() - right.len(),
        edit_distance(left, right) >= right.len() - left.len(),
        edit_distance(left, right) <= left.len() + right.len(),
    decreases left.len() + right.len(),
{
    if left.len() > 0 && right.len() > 0 {
        lemma_edit_distance_bounds(left.drop_last(), right.drop_last());
        lemma_edit_distance_bounds(left.drop_last(), right);
        lemma_edit_distance_bounds(left, right.drop_last());
    }
}

/// Where no prefix of the right side is within a bound of a prefix of the
/// left, none is within it of the next longer prefix.
proof fn lemma_rows_do_not_recover(
    left: Seq<char>,
    right: Seq<char>,
    i: int,
    j: int,
    max: nat,
)
    requires
        0 <= i < left.len(),
        0 <= j <= right.len(),
        forall|k: int|
            0 <= k <= right.len() ==> #[trigger] edit_distance(left.take(i), right.take(k)) > max,
    ensures
        edit_distance(left.take(i + 1), right.take(j)) > max,
    decreases j,
{
    let longer = left.take(i + 1);
    assert(longer.drop_last() =~= left.take(i));
    assert(edit_distance(left.take(i), right.take(j)) > max);
    if j == 0 {
        assert(right.take(0) =~= Seq::<char>::empty());
        assert(edit_distance(left.take(i), right.take(0)) == i);
        assert(edit_distance(longer, right.take(0)) == i + 1);
    } else {
        lemma_rows_do_not_recover(left, right, i, j - 1, max);
        assert(right.take(j).drop_last() =~= right.take(j - 1));
        assert(edit_distance(left.take(i), right.take(j - 1)) > max);
    }
}

proof fn lemma_later_rows_are_worse(left: Seq<char>, right: Seq<char>, i: int, max: nat)
    requires
        0 <= i <= left.len(),
        forall|k: int|
            0 <= k <= right.len() ==> #[trigger] edit_distance(left.take(i), right.take(k)) > max,
    ensures
        edit_distance(left, right) > max,
    decreases left.len() - i,
{
    if i == left.len() {
        assert(left.take(i) =~= left);
        assert(right.take(right.len() as int) =~= right);
        assert(edit_distance(left.take(i), right.take(right.len() as int)) > max);
    } else {
        assert forall|k: int| 0 <= k <= right.len() implies #[trigger] edit_distance(
            left.take(i + 1),
            right.take(k),
        ) > max by {
            lemma_rows_do_not_recover(left, right, i, k, max);
        }
        lemma_later_rows_are_worse(left, right, i + 1, max);
    }
}

/// The next row of the distance table, made in place from the one before:
/// before, `row[j]` is the distance of the first `i` characters on the left
/// and the first `j + 1` on the right; after, of the first `i + 1` on the
/// left. The smallest entry of the new row, its left edge counted, is
/// answered.
fn next_row(left: &[char], right: &[char], i: usize, row: &mut Vec<u128>) -> (best: u128)
    requires
        i < left@.len(),
        old(row)@.len() == right@.len(),
        forall|j: int|
            0 <= j < right@.len() ==> #[trigger] old(row)@[j] == edit_distance(
                left@.take(i as int),
                right@.take(j + 1),
            ),
    ensures
        final(row)@.len() == right@.len(),
        forall|j: int|
            0 <= j < right@.len() ==> #[trigger] final(row)@[j] == edit_distance(
                left@.take(i + 1),
                right@.take(j + 1),
            ),
        forall|k: int|
            0 <= k <= right@.len() ==> best <= #[trigger] edit_distance(
                left@.take(i + 1),
                right@.take(k),
            ),
        exists|k: int|
            0 <= k <= right@.len() && best == #[trigger] edit_distance(
                left@.take(i + 1),
                right@.take(k),
            ),
{
    let ghost above = row@;
    let ghost shorter = left@.take(i as int);
    let ghost longer = left@.take(i + 1);
    proof {
        assert(longer.drop_last() =~= shorter);
        assert(right@.take(0) =~= Seq::<char>::empty());
        assert(edit_distance(shorter, right@.take(0)) == i);
        assert(edit_distance(longer, right@.take(0)) == i + 1);
    }
    let edge: u128 = i as u128 + 1;
    let mut best: u128 = edge;
    let mut diagonal: u128 = i as u128;
    let mut before: u128 = edge;
    let mut j: usize = 0;
    while j < right.len()
        invariant
            i < left@.len(),
            j <= right@.len(),
            row@.len() == right@.len(),
            above.len() == right@.len(),
            shorter == left@.take(i as int),
            longer == left@.take(i + 1),
            longer.drop_last() == shorter,
            longer.last() == left@[i as int],
            forall|k: int|
                0 <= k < right@.len() ==> #[trigger] above[k] == edit_distance(
                    shorter,
                    right@.take(k + 1),
                ),
            forall|k: int| j <= k < right@.len() ==> #[trigger] row@[k] == above[k],
            forall|k: int|
                0 <= k < j ==> #[trigger] row@[k] == edit_distance(longer, right@.take(k + 1)),
            diagonal == edit_distance(shorter, right@.take(j as int)),
            before == edit_distance(longer, right@.take(j as int)),
            forall|k: int|
                0 <= k <= j ==> best <= #[trigger] edit_distance(longer, right@.take(k)),
            exists|k: int|
                0 <= k <= j && best == #[trigger] edit_distance(longer, right@.take(k)),
        decreases right@.len() - j,
    {
        let ghost part = right@.take(j + 1);
        proof {
            assert(part.drop_last() =~= right@.take(j as int));
            assert(part.last() == right@[j as int]);
            assert(above[j as int] == edit_distance(shorter, part));
            lemma_edit_distance_bounds(shorter, right@.take(j as int));
            lemma_edit_distance_bounds(shorter, part);
            lemma_edit_distance_bounds(longer, right@.take(j as int));
        }
        let over: u128 = row[j];
        let changed: u128 = if left[i] == right[j] {
            diagonal
        } else {
            diagonal + 1
        };
        let mut entry: u128 = changed;
        if over + 1 < entry {
            entry = over + 1;
        }
        if before + 1 < entry {
            entry = before + 1;
        }
        assert(entry == edit_distance(longer, part));
        row.set(j, entry);
        if entry < best {
            best = entry;
        }
        diagonal = over;
        before = entry;
        j += 1;
        proof {
            if best == entry {
                assert(best == edit_distance(longer, right@.take(j as int)));
            } else {
                let k = choose|k: int|
                    0 <= k <= j - 1 && best == #[trigger] edit_distance(longer, right@.take(k));
                assert(best == edit_distance(longer, right@.take(k)));
            }
        }
    }
    best
}

/// The Levenshtein distance of two texts, where it is within a bound.
pub fn edit_distance_within(left: &[char], right: &[char], max: usize) -> (distance: Option<usize>)
    ensures
        distance == (if edit_distance(left@, right@) <= max {
            Some(edit_distance(left@, right@) as usize)
        } else {
            None
        }),
{
    proof {
        lemma_edit_distance_bounds(left@, right@);
    }
    let apart: usize = if left.len() >= right.len() {
        left.len() - right.len()
    } else {
        right.len() - left.len()
    };
    if apart > max {
        return None;
    }
    let mut row: Vec<u128> = Vec::new();
    let mut filled: usize = 0;
    while filled < right.len()
        invariant
            filled <= right@.len(),
            row@.len() == filled,
            forall|j: int| 0 <= j < filled ==> #[trigger] row@[j] == j + 1,
        decreases right@.len() - filled,
    {
        row.push(filled as u128 + 1);
        filled += 1;
    }
    let mut i: usize = 0;
    proof {
        assert(left@.take(0) =~= Seq::<char>::empty());
    }
    while i < left.len()
        invariant
            i <= left@.len(),
            row@.len() == right@.len(),
            forall|j: int|
                0 <= j < right@.len() ==> #[trigger] row@[j] == edit_distance(
                    left@.take(i as int),
                    right@.take(j + 1),
                ),
        decreases left@.len() - i,
    {
        let best = next_row(left, right, i, &mut row);
        if best > max as u128 {
            proof {
                lemma_later_rows_are_worse(left@, right@, i + 1, max as nat);
            }
            return None;
        }
        i += 1;
    }
    assert(left@.take(i as int) =~= left@);
    let distance: u128 = if right.len() == 0 {
        left.len() as u128
    } else {
        assert(right@.take(right@.len() as int) =~= right@);
        row[right.len() - 1]
    };
    assert(distance == edit_distance(left@, right@));
    if distance <= max as u128 {
        Some(distance as usize)
    } else {
        None
    }
}

/// A text is at no distance from itself only.
pub proof fn law_no_distance_means_no_difference(left: Seq<char>, right: Seq<char>)
    ensures
        edit_distance(left, right) == 0 <==> left == right,
    decreases left.len() + right.len(),
{
    if left.len() == 0 || right.len() == 0 {
        if edit_distance(left, right) == 0 {
            assert(left =~= right);
        }
    } else {
        law_no_distance_means_no_difference(left.drop_last(), right.drop_last());
        if edit_distance(left, right) == 0 {
            assert(left =~= left.drop_last().push(left.last()));
            assert(right =~= right.drop_last().push(right.last()));
        }
    }
}

/// The distance is the same either way.
pub proof fn law_distance_is_symmetric(left: Seq<char>, right: Seq<char>)
    ensures
        edit_distance(left, right) == edit_distance(right, left),
    decreases left.len() + right.len(),
{
    if left.len() > 0 && right.len() > 0 {
        law_distance_is_symmetric(left.drop_last(), right.drop_last());
        law_distance_is_symmetric(left.drop_last(), right);
        law_distance_is_symmetric(left, right.drop_last());
    }
}

/// Whether one text becomes another by adding, taking away or changing one
/// character.
pub open spec fn one_edit(from: Seq<char>, to: Seq<char>) -> bool {
    ||| exists|i: int, c: char| 0 <= i <= from.len() && to == #[trigger] from.insert(i, c)
    ||| exists|i: int| 0 <= i < from.len() && to == #[trigger] from.remove(i)
    ||| exists|i: int, c: char| 0 <= i < from.len() && to == #[trigger] from.update(i, c)
}

/// Whether one text becomes another by as many such edits, or by fewer.
pub open spec fn within_edits(from: Seq<char>, to: Seq<char>, edits: nat) -> bool
    decreases edits,
{
    from == to || (edits > 0 && exists|between: Seq<char>|
        #[trigger] one_edit(from, between) && within_edits(between, to, (edits - 1) as nat))
}

proof fn lemma_one_edit_back(from: Seq<char>, to: Seq<char>)
    requires
        one_edit(from, to),
    ensures
        one_edit(to, from),
{
    if exists|i: int, c: char| 0 <= i <= from.len() && to == #[trigger] from.insert(i, c) {
        let (i, c) = choose|i: int, c: char|
            0 <= i <= from.len() && to == #[trigger] from.insert(i, c);
        assert(to.remove(i) =~= from);
    } else if exists|i: int| 0 <= i < from.len() && to == #[trigger] from.remove(i) {
        let i = choose|i: int| 0 <= i < from.len() && to == #[trigger] from.remove(i);
        assert(to.insert(i, from[i]) =~= from);
    } else {
        let (i, c) = choose|i: int, c: char|
            0 <= i < from.len() && to == #[trigger] from.update(i, c);
        assert(to.update(i, from[i]) =~= from);
    }
}

proof fn lemma_one_more_on_the_right(left: Seq<char>, right: Seq<char>, c: char)
    ensures
        edit_distance(left, right.push(c)) <= edit_distance(left, right) + 1,
{
    assert(right.push(c).drop_last() =~= right);
}

proof fn lemma_one_more_on_the_left(left: Seq<char>, right: Seq<char>)
    requires
        left.len() > 0,
    ensures
        edit_distance(left, right) <= edit_distance(left.drop_last(), right) + 1,
{
}

proof fn lemma_one_less_on_the_right(left: Seq<char>, right: Seq<char>, c: char)
    ensures
        edit_distance(left, right) <= edit_distance(left, right.push(c)) + 1,
    decreases left.len(),
{
    let longer = right.push(c);
    assert(longer.drop_last() =~= right);
    if left.len() > 0 {
        lemma_one_less_on_the_right(left.drop_last(), right, c);
        lemma_one_more_on_the_left(left, right);
    }
}

proof fn lemma_another_last_on_the_right(left: Seq<char>, right: Seq<char>, c: char, d: char)
    ensures
        edit_distance(left, right.push(d)) <= edit_distance(left, right.push(c)) + 1,
    decreases left.len(),
{
    assert(right.push(c).drop_last() =~= right);
    assert(right.push(d).drop_last() =~= right);
    if left.len() > 0 {
        lemma_another_last_on_the_right(left.drop_last(), right, c, d);
        lemma_one_more_on_the_left(left, right.push(d));
        lemma_one_more_on_the_right(left, right, d);
    }
}

proof fn lemma_common_last(
    left: Seq<char>,
    right: Seq<char>,
    other: Seq<char>,
    front: Seq<char>,
    front_other: Seq<char>,
)
    requires
        left.len() > 0 && right.len() > 0 && other.len() > 0,
        right.last() == other.last(),
        front == right.drop_last(),
        front_other == other.drop_last(),
        edit_distance(left.drop_last(), front_other) <= edit_distance(left.drop_last(), front) + 1,
        edit_distance(left, front_other) <= edit_distance(left, front) + 1,
        edit_distance(left.drop_last(), other) <= edit_distance(left.drop_last(), right) + 1,
    ensures
        edit_distance(left, other) <= edit_distance(left, right) + 1,
{
}

/// One edit changes a distance by one at most.
proof fn lemma_edit_step(left: Seq<char>, right: Seq<char>, other: Seq<char>)
    requires
        one_edit(right, other),
    ensures
        edit_distance(left, other) <= edit_distance(left, right) + 1,
    decreases right.len() + other.len(), left.len(),
{
    if exists|i: int, c: char| 0 <= i <= right.len() && other == #[trigger] right.insert(i, c) {
        let (i, c) = choose|i: int, c: char|
            0 <= i <= right.len() && other == #[trigger] right.insert(i, c);
        if i == right.len() {
            assert(other =~= right.push(c));
            lemma_one_more_on_the_right(left, right, c);
        } else {
            let front = right.drop_last();
            let front_other = other.drop_last();
            assert(front_other =~= front.insert(i, c));
            assert(other.last() == right.last());
            if left.len() > 0 {
                lemma_edit_step(left.drop_last(), front, front_other);
                lemma_edit_step(left, front, front_other);
                lemma_edit_step(left.drop_last(), right, other);
                lemma_common_last(left, right, other, front, front_other);
            }
        }
    } else if exists|i: int| 0 <= i < right.len() && other == #[trigger] right.remove(i) {
        let i = choose|i: int| 0 <= i < right.len() && other == #[trigger] right.remove(i);
        if i == right.len() - 1 {
            assert(other =~= right.drop_last());
            assert(other.push(right.last()) =~= right);
            lemma_one_less_on_the_right(left, other, right.last());
        } else {
            let front = right.drop_last();
            let front_other = other.drop_last();
            assert(front_other =~= front.remove(i));
            assert(other.last() == right.last());
            if left.len() > 0 {
                lemma_edit_step(left.drop_last(), front, front_other);
                lemma_edit_step(left, front, front_other);
                lemma_edit_step(left.drop_last(), right, other);
                lemma_common_last(left, right, other, front, front_other);
            }
        }
    } else {
        let (i, c) = choose|i: int, c: char|
            0 <= i < right.len() && other == #[trigger] right.update(i, c);
        if i == right.len() - 1 {
            let front = right.drop_last();
            assert(front.push(right.last()) =~= right);
            assert(front.push(c) =~= other);
            lemma_another_last_on_the_right(left, front, right.last(), c);
        } else {
            let front = right.drop_last();
            let front_other = other.drop_last();
            assert(front_other =~= front.update(i, c));
            assert(other.last() == right.last());
            if left.len() > 0 {
                lemma_edit_step(left.drop_last(), front, front_other);
                lemma_edit_step(left, front, front_other);
                lemma_edit_step(left.drop_last(), right, other);
                lemma_common_last(left, right, other, front, front_other);
            }
        }
    }
}

proof fn lemma_edits_bound_the_distance(from: Seq<char>, to: Seq<char>, edits: nat)
    requires
        within_edits(from, to, edits),
    ensures
        edit_distance(from, to) <= edits,
    decreases edits,
{
    if from == to {
        law_no_distance_means_no_difference(from, to);
    } else {
        let between = choose|between: Seq<char>|
            #[trigger] one_edit(from, between) && within_edits(between, to, (edits - 1) as nat);
        lemma_edits_bound_the_distance(between, to, (edits - 1) as nat);
        lemma_one_edit_back(from, between);
        lemma_edit_step(to, between, from);
        law_distance_is_symmetric(to, between);
        law_distance_is_symmetric(to, from);
    }
}

proof fn lemma_more_edits(from: Seq<char>, to: Seq<char>, edits: nat, more: nat)
    requires
        within_edits(from, to, edits),
        edits <= more,
    ensures
        within_edits(from, to, more),
    decreases edits,
{
    if from != to {
        let between = choose|between: Seq<char>|
            #[trigger] one_edit(from, between) && within_edits(between, to, (edits - 1) as nat);
        lemma_more_edits(between, to, (edits - 1) as nat, (more - 1) as nat);
        assert(one_edit(from, between));
    }
}

proof fn lemma_edit_at_the_end(from: Seq<char>, to: Seq<char>, end: Seq<char>, edits: nat)
    requires
        within_edits(from, to, edits),
        one_edit(to, end),
    ensures
        within_edits(from, end, edits + 1),
    decreases edits,
{
    if from == to {
        assert(within_edits(end, end, edits));
        assert(one_edit(from, end));
    } else {
        let between = choose|between: Seq<char>|
            #[trigger] one_edit(from, between) && within_edits(between, to, (edits - 1) as nat);
        lemma_edit_at_the_end(between, to, end, (edits - 1) as nat);
        assert(one_edit(from, between));
    }
}

proof fn lemma_edits_before_a_common_last(from: Seq<char>, to: Seq<char>, edits: nat, c: char)
    requires
        within_edits(from, to, edits),
    ensures
        within_edits(from.push(c), to.push(c), edits),
    decreases edits,
{
    if from != to {
        let between = choose|between: Seq<char>|
            #[trigger] one_edit(from, between) && within_edits(between, to, (edits - 1) as nat);
        lemma_edits_before_a_common_last(between, to, (edits - 1) as nat, c);
        if exists|i: int, d: char| 0 <= i <= from.len() && between == #[trigger] from.insert(i, d) {
            let (i, d) = choose|i: int, d: char|
                0 <= i <= from.len() && between == #[trigger] from.insert(i, d);
            assert(from.push(c).insert(i, d) =~= between.push(c));
        } else if exists|i: int| 0 <= i < from.len() && between == #[trigger] from.remove(i) {
            let i = choose|i: int| 0 <= i < from.len() && between == #[trigger] from.remove(i);
            assert(from.push(c).remove(i) =~= between.push(c));
        } else {
            let (i, d) = choose|i: int, d: char|
                0 <= i < from.len() && between == #[trigger] from.update(i, d);
            assert(from.push(c).update(i, d) =~= between.push(c));
        }
        assert(one_edit(from.push(c), between.push(c)));
    }
}

proof fn lemma_the_distance_is_reached(from: Seq<char>, to: Seq<char>)
    ensures
        within_edits(from, to, edit_distance(from, to)),
    decreases from.len() + to.len(),
{
    if from.len() == 0 && to.len() == 0 {
        assert(from =~= to);
    } else if from.len() == 0 {
        let front = to.drop_last();
        lemma_the_distance_is_reached(from, front);
        assert(front.insert(front.len() as int, to.last()) =~= to);
        lemma_edit_at_the_end(from, front, to, edit_distance(from, front));
    } else if to.len() == 0 {
        let front = from.drop_last();
        lemma_the_distance_is_reached(front, to);
        assert(from.remove(from.len() - 1) =~= front);
        assert(one_edit(from, front));
        assert(edit_distance(from, to) == edit_distance(front, to) + 1);
    } else {
        let short_from = from.drop_last();
        let short_to = to.drop_last();
        let distance = edit_distance(from, to);
        lemma_the_distance_is_reached(short_from, short_to);
        lemma_the_distance_is_reached(short_from, to);
        lemma_the_distance_is_reached(from, short_to);
        assert(short_from.push(from.last()) =~= from);
        assert(short_to.push(to.last()) =~= to);
        if from.last() == to.last() && distance == edit_distance(short_from, short_to) {
            lemma_edits_before_a_common_last(short_from, short_to, distance, to.last());
        } else if distance == edit_distance(short_from, short_to) + 1 {
            let near = short_to.push(from.last());
            lemma_edits_before_a_common_last(
                short_from,
                short_to,
                edit_distance(short_from, short_to),
                from.last(),
            );
            assert(near.update(near.len() - 1, to.last()) =~= to);
            lemma_edit_at_the_end(from, near, to, edit_distance(short_from, short_to));
        } else if distance == edit_distance(short_from, to) + 1 {
            assert(from.remove(from.len() - 1) =~= short_from);
            assert(one_edit(from, short_from));
        } else {
            assert(short_to.insert(short_to.len() as int, to.last()) =~= to);
            lemma_edit_at_the_end(from, short_to, to, edit_distance(from, short_to));
        }
    }
}

/// The distance of two texts is the fewest single-character edits that make one
/// the other: it is within a bound exactly where so many edits suffice.
pub proof fn law_the_distance_counts_edits(from: Seq<char>, to: Seq<char>, edits: nat)
    ensures
        edit_distance(from, to) <= edits <==> within_edits(from, to, edits),
{
    lemma_the_distance_is_reached(from, to);
    if edit_distance(from, to) <= edits {
        lemma_more_edits(from, to, edit_distance(from, to), edits);
    }
    if within_edits(from, to, edits) {
        lemma_edits_bound_the_distance(from, to, edits);
    }
}

// ---- Scoring ---------------------------------------------------------------------------------

/// How far off a folder name a query may be. A longer query carries more
/// evidence, so it earns the wider tolerance.
pub open spec fn tolerance(query: Seq<char>) -> nat {
    if query.len() >= 5 {
        2
    } else {
        1
    }
}

pub fn tolerance_for(query: &[char]) -> (edits: usize)
    ensures
        edits == tolerance(query@),
        query@.len() >= 5 ==> edits == 2,
        query@.len() < 5 ==> edits == 1,
{
    if query.len() >= 5 {
        2
    } else {
        1
    }
}

/// The name of a directory: the last component of its path, or the whole path
/// where it has none.
pub open spec fn name_of(path: Seq<char>) -> Seq<char> {
    match file_name(path) {
        Some(name) => name,
        None => path,
    }
}

pub fn folder_name(path: &str) -> (name: String)
    ensures
        name@ == name_of(path@),
{
    let chars = to_chars(path);
    match last_name(&chars) {
        Some(name) => to_text(&name),
        None => path.to_string(),
    }
}

/// How a folded query scores against a folded folder name and a folded path,
/// where it matches. Smaller is better: the tier (folder name, then path),
/// then the kind of match (subsequence, then edit distance), then the
/// distance.
pub open spec fn score(
    query: Seq<char>,
    tolerance: nat,
    folder: Seq<char>,
    path: Seq<char>,
) -> Option<(u8, u8, usize)> {
    if subsequence(query, folder) {
        Some((0u8, 0u8, 0usize))
    } else if edit_distance(query, folder) <= tolerance {
        Some((0u8, 1u8, edit_distance(query, folder) as usize))
    } else if subsequence(query, path) {
        Some((1u8, 0u8, 0usize))
    } else {
        None
    }
}

/// How a folded query scores against a folded folder name and a folded path.
pub fn score_folded(query: &[char], tolerance: usize, folder: &[char], path: &[char]) -> (key: Option<
    (u8, u8, usize),
>)
    ensures
        key == score(query@, tolerance as nat, folder@, path@),
{
    if is_subsequence(query, folder) {
        return Some((0, 0, 0));
    }
    if let Some(distance) = edit_distance_within(query, folder, tolerance) {
        return Some((0, 1, distance));
    }
    if is_subsequence(query, path) {
        return Some((1, 0, 0));
    }
    None
}

/// Whether the characters of a query stand in a text in their order.
pub open spec fn spelled_in(query: Seq<char>, text: Seq<char>) -> bool {
    exists|places: Seq<int>| embeds(places, query, text)
}

/// Whether a query is as few edits away from a name as its length allows: two
/// for five characters and more, and one for fewer.
pub open spec fn nearly(query: Seq<char>, name: Seq<char>) -> bool {
    (query.len() >= 5 && within_edits(query, name, 2)) || (query.len() < 5 && within_edits(
        query,
        name,
        1,
    ))
}

/// A query matches a directory exactly where its characters stand in the
/// folder's name in their order, where the name is at most two edits away, or
/// one for a query of fewer than five characters, or where its characters stand
/// in the path in their order. The first of these says what kind of match it
/// is, and a near name counts the edits.
pub proof fn law_what_a_query_matches(
    query: Seq<char>,
    folder: Seq<char>,
    path: Seq<char>,
)
    ensures
        ({
            let score = score(query, tolerance(query), folder, path);
            &&& spelled_in(query, folder) <==> score == Some((0u8, 0u8, 0usize))
            &&& !spelled_in(query, folder) && nearly(query, folder) ==> (score matches Some(
                (tier, kind, edits),
            ) && tier == 0 && kind == 1 && within_edits(query, folder, edits as nat) && (edits > 0
                ==> !within_edits(query, folder, (edits - 1) as nat)))
            &&& !spelled_in(query, folder) && !nearly(query, folder) && spelled_in(query, path)
                ==> score == Some((1u8, 0u8, 0usize))
            &&& !spelled_in(query, folder) && !nearly(query, folder) && !spelled_in(query, path)
                ==> score is None
        }),
{
    law_a_subsequence_is_an_embedding(query, folder);
    law_a_subsequence_is_an_embedding(query, path);
    let distance = edit_distance(query, folder);
    law_the_distance_counts_edits(query, folder, 2);
    law_the_distance_counts_edits(query, folder, 1);
    law_the_distance_counts_edits(query, folder, distance);
    if distance > 0 {
        law_the_distance_counts_edits(query, folder, (distance - 1) as nat);
    }
}

/// Composing comes before everything else: texts that compose to the same text
/// match and are matched alike.
pub proof fn law_composed_alike_matches_alike(left: Seq<char>, right: Seq<char>)
    requires
        lower_case(composed(left)) == lower_case(composed(right)),
    ensures
        folding(left) == folding(right),
{
}

/// How a folded query scores against a remembered path.
pub open spec fn path_score(query: Seq<char>, tolerance: nat, path: Seq<char>) -> Option<
    (u8, u8, usize),
> {
    score(query, tolerance, folding(name_of(path)), folding(path))
}

/// Score a remembered path against a folded query, or refuse it.
pub fn match_key(query: &[char], tolerance: usize, path: &str) -> (key: Option<(u8, u8, usize)>)
    ensures
        key == path_score(query@, tolerance as nat, path@),
{
    let folder = folded(&folder_name(path));
    let whole = folded(path);
    score_folded(query, tolerance, &folder, &whole)
}

/// A directory is named by what stands behind the last slash of its path, and a
/// path without a name by itself.
pub proof fn law_what_a_directory_is_called(front: Seq<char>, name: Seq<char>)
    requires
        !name.contains('/'),
        name.len() > 0,
        name != "."@ && name != ".."@,
    ensures
        name_of(front + seq!['/'] + name) == name,
        name_of(front + seq!['/'] + name + seq!['/']) == name,
        name_of(name) == name,
        name_of(front + seq!['/'] + ".."@) == front + seq!['/'] + ".."@,
{
    law_the_name_behind_the_last_slash(front, name);
}

/// A query may be two edits off a folder's name where it has five characters or
/// more, however many, and one edit where it has fewer; two texts are within so
/// many edits exactly where their distance is found, and what is found is the
/// least number of edits.
pub proof fn law_how_far_off_a_query_may_be(
    query: &[char],
    name: &[char],
    edits: usize,
    found: Option<usize>,
    yes: bool,
)
    requires
        call_ensures(tolerance_for, (query,), edits),
        call_ensures(edit_distance_within, (query, name, edits), found),
        call_ensures(is_subsequence, (query, name), yes),
    ensures
        query@.len() >= 5 ==> edits == 2,
        query@.len() < 5 ==> edits == 1,
        found is Some <==> nearly(query@, name@),
        found matches Some(distance) ==> within_edits(query@, name@, distance as nat) && (distance
            > 0 ==> !within_edits(query@, name@, (distance - 1) as nat)),
        yes <==> spelled_in(query@, name@),
{
    law_the_distance_counts_edits(query@, name@, edits as nat);
    law_a_subsequence_is_an_embedding(query@, name@);
    if let Some(distance) = found {
        law_the_distance_counts_edits(query@, name@, distance as nat);
        if distance > 0 {
            law_the_distance_counts_edits(query@, name@, (distance - 1) as nat);
        }
    }
}

} // verus!
