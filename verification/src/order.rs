//! Orders on bytes, texts and lists of bytes, and a stable sort.
use vstd::prelude::*;
use vstd::string::*;
use vstd::utf8::*;

use crate::views;

verus! {

/// How one value stands to another in an order.
#[derive(Clone, Copy, Debug, PartialEq, Eq, Structural)]
pub enum Standing {
    Earlier,
    Same,
    Later,
}

impl Standing {
    /// How the other value stands to the first.
    pub open spec fn reversed(self) -> Standing {
        match self {
            Standing::Earlier => Standing::Later,
            Standing::Same => Standing::Same,
            Standing::Later => Standing::Earlier,
        }
    }
}

/// The lexicographic order of byte sequences.
pub open spec fn byte_order(left: Seq<u8>, right: Seq<u8>) -> Standing
    decreases left.len(),
{
    if left.len() == 0 {
        if right.len() == 0 {
            Standing::Same
        } else {
            Standing::Earlier
        }
    } else if right.len() == 0 {
        Standing::Later
    } else if left[0] < right[0] {
        Standing::Earlier
    } else if left[0] > right[0] {
        Standing::Later
    } else {
        byte_order(left.skip(1), right.skip(1))
    }
}

/// The order of texts: that of their UTF-8 bytes.
pub open spec fn text_order(left: Seq<char>, right: Seq<char>) -> Standing {
    byte_order(encode_utf8(left), encode_utf8(right))
}

/// The lexicographic order of lists of byte sequences.
pub open spec fn list_order(left: Seq<Seq<u8>>, right: Seq<Seq<u8>>) -> Standing
    decreases left.len(),
{
    if left.len() == 0 {
        if right.len() == 0 {
            Standing::Same
        } else {
            Standing::Earlier
        }
    } else if right.len() == 0 {
        Standing::Later
    } else {
        match byte_order(left[0], right[0]) {
            Standing::Same => list_order(left.skip(1), right.skip(1)),
            standing => standing,
        }
    }
}

/// Swapping two byte sequences reverses how they stand; only equal ones stand
/// the same.
pub proof fn lemma_byte_order(left: Seq<u8>, right: Seq<u8>)
    ensures
        byte_order(left, right).reversed() == byte_order(right, left),
        byte_order(left, right) == Standing::Same <==> left == right,
    decreases left.len(),
{
    if left.len() > 0 && right.len() > 0 {
        lemma_byte_order(left.skip(1), right.skip(1));
        if left[0] == right[0] && left.skip(1) == right.skip(1) {
            assert(left =~= seq![left[0]] + left.skip(1));
            assert(right =~= seq![right[0]] + right.skip(1));
        }
    } else if left.len() == 0 && right.len() == 0 {
        assert(left =~= right);
    }
}

/// The order of byte sequences is transitive.
pub proof fn lemma_byte_order_transitive(a: Seq<u8>, b: Seq<u8>, c: Seq<u8>)
    requires
        byte_order(a, b) != Standing::Later,
        byte_order(b, c) != Standing::Later,
    ensures
        byte_order(a, c) != Standing::Later,
        byte_order(a, b) == Standing::Earlier || byte_order(b, c) == Standing::Earlier
            ==> byte_order(a, c) == Standing::Earlier,
    decreases a.len(),
{
    if a.len() > 0 && b.len() > 0 && c.len() > 0 && a[0] == b[0] && b[0] == c[0] {
        lemma_byte_order_transitive(a.skip(1), b.skip(1), c.skip(1));
    }
}

/// Swapping two lists reverses how they stand; only equal ones stand the same.
pub proof fn lemma_list_order(left: Seq<Seq<u8>>, right: Seq<Seq<u8>>)
    ensures
        list_order(left, right).reversed() == list_order(right, left),
        list_order(left, right) == Standing::Same <==> left == right,
    decreases left.len(),
{
    if left.len() > 0 && right.len() > 0 {
        lemma_byte_order(left[0], right[0]);
        lemma_list_order(left.skip(1), right.skip(1));
        if left[0] == right[0] && left.skip(1) == right.skip(1) {
            assert(left =~= seq![left[0]] + left.skip(1));
            assert(right =~= seq![right[0]] + right.skip(1));
        }
    } else if left.len() == 0 && right.len() == 0 {
        assert(left =~= right);
    }
}

/// The order of lists is transitive.
pub proof fn lemma_list_order_transitive(a: Seq<Seq<u8>>, b: Seq<Seq<u8>>, c: Seq<Seq<u8>>)
    requires
        list_order(a, b) != Standing::Later,
        list_order(b, c) != Standing::Later,
    ensures
        list_order(a, c) != Standing::Later,
        list_order(a, b) == Standing::Earlier || list_order(b, c) == Standing::Earlier
            ==> list_order(a, c) == Standing::Earlier,
    decreases a.len(),
{
    if a.len() > 0 && b.len() > 0 && c.len() > 0 {
        lemma_byte_order_transitive(a[0], b[0], c[0]);
        lemma_byte_order(a[0], b[0]);
        lemma_byte_order(b[0], c[0]);
        lemma_byte_order(a[0], c[0]);
        if a[0] == b[0] && b[0] == c[0] {
            lemma_list_order_transitive(a.skip(1), b.skip(1), c.skip(1));
        }
    }
}

/// How two byte sequences stand to each other.
pub fn compare_bytes(left: &[u8], right: &[u8]) -> (standing: Standing)
    ensures
        standing == byte_order(left@, right@),
{
    let mut i: usize = 0;
    assert(left@.skip(0) =~= left@);
    assert(right@.skip(0) =~= right@);
    while i < left.len() && i < right.len()
        invariant
            i <= left@.len(),
            i <= right@.len(),
            byte_order(left@, right@) == byte_order(left@.skip(i as int), right@.skip(i as int)),
        decreases left@.len() - i,
    {
        if left[i] < right[i] {
            return Standing::Earlier;
        }
        if left[i] > right[i] {
            return Standing::Later;
        }
        assert(left@.skip(i as int).skip(1) =~= left@.skip(i + 1));
        assert(right@.skip(i as int).skip(1) =~= right@.skip(i + 1));
        i += 1;
    }
    if i < right.len() {
        Standing::Earlier
    } else if i < left.len() {
        Standing::Later
    } else {
        Standing::Same
    }
}

/// Whether two byte sequences are equal.
pub fn same_bytes(left: &[u8], right: &[u8]) -> (same: bool)
    ensures
        same == (left@ == right@),
{
    proof {
        lemma_byte_order(left@, right@);
    }
    match compare_bytes(left, right) {
        Standing::Same => true,
        _ => false,
    }
}

/// How two texts stand to each other.
pub fn compare_texts(left: &str, right: &str) -> (standing: Standing)
    ensures
        standing == text_order(left@, right@),
{
    compare_bytes(left.as_bytes(), right.as_bytes())
}

/// Only equal texts stand the same.
pub proof fn lemma_text_order_same(left: Seq<char>, right: Seq<char>)
    ensures
        text_order(left, right) == Standing::Same <==> left == right,
{
    broadcast use encode_utf8_decode_utf8;

    lemma_byte_order(encode_utf8(left), encode_utf8(right));
    assert(decode_utf8(encode_utf8(left)) == left);
    assert(decode_utf8(encode_utf8(right)) == right);
}

/// Of two texts one may stand before the other.
pub proof fn lemma_text_order_total(left: Seq<char>, right: Seq<char>)
    ensures
        text_order(left, right) != Standing::Later || text_order(right, left) != Standing::Later,
{
    lemma_byte_order(encode_utf8(left), encode_utf8(right));
    assert(text_order(right, left) == text_order(left, right).reversed());
}

/// Texts of which each may stand before the other are equal.
pub proof fn lemma_text_order_antisymmetric(left: Seq<char>, right: Seq<char>)
    ensures
        text_order(left, right) != Standing::Later && text_order(right, left) != Standing::Later
            ==> left == right,
{
    lemma_byte_order(encode_utf8(left), encode_utf8(right));
    lemma_text_order_same(left, right);
    assert(text_order(right, left) == text_order(left, right).reversed());
}

/// The order of texts is transitive.
pub proof fn lemma_text_order_transitive(a: Seq<char>, b: Seq<char>, c: Seq<char>)
    requires
        text_order(a, b) != Standing::Later,
        text_order(b, c) != Standing::Later,
    ensures
        text_order(a, c) != Standing::Later,
{
    lemma_byte_order_transitive(encode_utf8(a), encode_utf8(b), encode_utf8(c));
}

/// A total order by which values can be sorted; values may tie.
pub trait Order<T: View> {
    /// Whether `a` may stand before `b`.
    spec fn le(a: T::V, b: T::V) -> bool;

    proof fn total(a: T::V, b: T::V)
        ensures
            Self::le(a, b) || Self::le(b, a),
    ;

    proof fn transitive(a: T::V, b: T::V, c: T::V)
        requires
            Self::le(a, b),
            Self::le(b, c),
        ensures
            Self::le(a, c),
    ;

    fn in_order(a: &T, b: &T) -> (ordered: bool)
        ensures
            ordered == Self::le(a@, b@),
    ;
}

/// Whether the element at position `a` of `items` comes before the one at
/// position `b` in a stable sort: it is smaller, or it ties and stood first.
pub open spec fn comes_before<T: View, O: Order<T>>(items: Seq<T::V>, a: int, b: int) -> bool {
    &&& O::le(items[a], items[b])
    &&& O::le(items[b], items[a]) ==> a < b
}

/// Whether `places` lists each position below `size` once.
pub open spec fn lists_positions(places: Seq<int>, size: nat) -> bool {
    &&& places.len() == size
    &&& forall|i: int| 0 <= i < size ==> 0 <= #[trigger] places[i] < size
    &&& forall|i: int, j: int|
        0 <= i < j < size ==> #[trigger] places[i] != #[trigger] places[j]
}

/// Whether `sorted` holds the elements of `items`, in order, and those that tie
/// as they stood in `items`; `places` says where each one came from.
pub open spec fn sorted_from<T: View, O: Order<T>>(
    sorted: Seq<T::V>,
    items: Seq<T::V>,
    places: Seq<int>,
) -> bool {
    &&& sorted.len() == items.len()
    &&& lists_positions(places, items.len())
    &&& forall|i: int| 0 <= i < items.len() ==> #[trigger] sorted[i] == items[places[i]]
    &&& forall|i: int, j: int|
        0 <= i < j < items.len() ==> comes_before::<T, O>(
            items,
            #[trigger] places[i],
            #[trigger] places[j],
        )
}

/// Whether `sorted` is the stable sort of `items`.
pub open spec fn is_stable_sort<T: View, O: Order<T>>(
    sorted: Seq<T::V>,
    items: Seq<T::V>,
) -> bool {
    exists|places: Seq<int>| sorted_from::<T, O>(sorted, items, places)
}

/// One more element put where it belongs, behind those that may stand before it.
proof fn lemma_insert_sorted<T: View, O: Order<T>>(
    sorted: Seq<T::V>,
    items: Seq<T::V>,
    places: Seq<int>,
    at: int,
    value: T::V,
)
    requires
        sorted_from::<T, O>(sorted, items, places),
        0 <= at <= sorted.len(),
        forall|k: int| 0 <= k < at ==> O::le(#[trigger] sorted[k], value),
        forall|k: int| at <= k < sorted.len() ==> !O::le(#[trigger] sorted[k], value),
    ensures
        sorted_from::<T, O>(
            sorted.insert(at, value),
            items.push(value),
            places.insert(at, items.len() as int),
        ),
{
    let count = items.len() as int;
    let next = items.push(value);
    let moved = places.insert(at, count);
    let after = sorted.insert(at, value);
    assert forall|k: int| at <= k < sorted.len() implies O::le(value, #[trigger] sorted[k]) by {
        O::total(value, sorted[k]);
    }
    assert forall|i: int| 0 <= i < next.len() implies #[trigger] after[i] == next[moved[i]] by {
        if i < at {
            assert(sorted[i] == items[places[i]]);
        } else if i > at {
            assert(sorted[i - 1] == items[places[i - 1]]);
        }
    }
    assert forall|i: int, j: int| 0 <= i < j < next.len() implies comes_before::<T, O>(
        next,
        #[trigger] moved[i],
        #[trigger] moved[j],
    ) by {
        let a = if i < at { i } else { i - 1 };
        let b = if j < at { j } else { j - 1 };
        if i != at && j != at {
            assert(comes_before::<T, O>(items, places[a], places[b]));
        } else if i == at {
            assert(sorted[b] == items[places[b]]);
        } else {
            assert(sorted[a] == items[places[a]]);
        }
    }
    assert(lists_positions(moved, next.len()));
}

/// Where a value belongs in a sorted list: behind those that may stand before it.
proof fn lemma_place_for<T: View, O: Order<T>>(
    sorted: Seq<T::V>,
    items: Seq<T::V>,
    places: Seq<int>,
    value: T::V,
    size: int,
) -> (at: int)
    requires
        sorted_from::<T, O>(sorted, items, places),
        0 <= size <= sorted.len(),
        forall|k: int| size <= k < sorted.len() ==> !O::le(#[trigger] sorted[k], value),
    ensures
        0 <= at <= sorted.len(),
        forall|k: int| 0 <= k < at ==> O::le(#[trigger] sorted[k], value),
        forall|k: int| at <= k < sorted.len() ==> !O::le(#[trigger] sorted[k], value),
    decreases size,
{
    if size == 0 {
        0
    } else if O::le(sorted[size - 1], value) {
        assert forall|k: int| 0 <= k < size implies O::le(#[trigger] sorted[k], value) by {
            if k < size - 1 {
                assert(comes_before::<T, O>(items, places[k], places[size - 1]));
                assert(sorted[k] == items[places[k]]);
                assert(sorted[size - 1] == items[places[size - 1]]);
                O::transitive(sorted[k], sorted[size - 1], value);
            }
        }
        size
    } else {
        lemma_place_for::<T, O>(sorted, items, places, value, size - 1)
    }
}

proof fn lemma_sort_of<T: View, O: Order<T>>(items: Seq<T::V>) -> (sorting: (Seq<T::V>, Seq<int>))
    ensures
        sorted_from::<T, O>(sorting.0, items, sorting.1),
        sorting.0.to_multiset() == items.to_multiset(),
    decreases items.len(),
{
    broadcast use vstd::seq_lib::group_to_multiset_ensures;

    if items.len() == 0 {
        (items, Seq::empty())
    } else {
        let before = items.drop_last();
        let (sorted, places) = lemma_sort_of::<T, O>(before);
        let value = items.last();
        let at = lemma_place_for::<T, O>(sorted, before, places, value, sorted.len() as int);
        lemma_insert_sorted::<T, O>(sorted, before, places, at, value);
        assert(before.push(value) =~= items);
        let next = sorted.insert(at, value);
        assert(next.remove(at) =~= sorted);
        assert(next[at] == value);
        assert(next.contains(value));
        assert(next.to_multiset() =~= sorted.to_multiset().insert(value));
        (next, places.insert(at, before.len() as int))
    }
}

/// A list has a stable sort.
pub proof fn lemma_sort_exists<T: View, O: Order<T>>(items: Seq<T::V>)
    ensures
        is_stable_sort::<T, O>(stably_sorted::<T, O>(items), items),
{
    let (sorted, places) = lemma_sort_of::<T, O>(items);
    assert(sorted_from::<T, O>(sorted, items, places));
    assert(is_stable_sort::<T, O>(sorted, items));
}

/// The stable sort of a list holds what the list holds, and is in order.
pub proof fn lemma_sort_keeps<T: View, O: Order<T>>(items: Seq<T::V>)
    ensures
        stably_sorted::<T, O>(items).len() == items.len(),
        forall|value: T::V| #[trigger]
            stably_sorted::<T, O>(items).contains(value) <==> items.contains(value),
        forall|i: int, j: int|
            0 <= i < j < items.len() ==> O::le(
                #[trigger] stably_sorted::<T, O>(items)[i],
                #[trigger] stably_sorted::<T, O>(items)[j],
            ),
{
    lemma_sort_exists::<T, O>(items);
    let sorted = stably_sorted::<T, O>(items);
    let places = choose|places: Seq<int>| sorted_from::<T, O>(sorted, items, places);
    assert forall|value: T::V| #[trigger] sorted.contains(value) <==> items.contains(value) by {
        if items.contains(value) {
            let at = choose|i: int| 0 <= i < items.len() && items[i] == value;
            lemma_position_listed(places, items.len(), at);
            let i = choose|i: int| 0 <= i < items.len() && #[trigger] places[i] == at;
            assert(sorted[i] == items[places[i]]);
        }
        if sorted.contains(value) {
            let i = choose|i: int| 0 <= i < sorted.len() && sorted[i] == value;
            assert(sorted[i] == items[places[i]]);
        }
    }
    assert forall|i: int, j: int| 0 <= i < j < items.len() implies O::le(
        #[trigger] sorted[i],
        #[trigger] sorted[j],
    ) by {
        assert(comes_before::<T, O>(items, places[i], places[j]));
        assert(sorted[i] == items[places[i]]);
        assert(sorted[j] == items[places[j]]);
    }
}

/// The stable sort of `items`.
pub open spec fn stably_sorted<T: View, O: Order<T>>(items: Seq<T::V>) -> Seq<T::V> {
    choose|sorted: Seq<T::V>| is_stable_sort::<T, O>(sorted, items)
}

/// Every position below `size` is listed.
pub proof fn lemma_position_listed(places: Seq<int>, size: nat, position: int)
    requires
        lists_positions(places, size),
        0 <= position < size,
    ensures
        exists|i: int| 0 <= i < size && #[trigger] places[i] == position,
{
    let listed = places.to_set();
    let range = vstd::set_lib::set_int_range(0, size as int);
    vstd::set_lib::lemma_int_range(0, size as int);
    places.unique_seq_to_set();
    assert(listed.subset_of(range));
    vstd::seq_lib::seq_to_set_is_finite(places);
    vstd::set_lib::lemma_subset_equality(listed, range);
    assert(range.contains(position));
    assert(listed.contains(position));
}

proof fn lemma_same_places<T: View, O: Order<T>>(
    items: Seq<T::V>,
    left: Seq<T::V>,
    left_places: Seq<int>,
    right: Seq<T::V>,
    right_places: Seq<int>,
    n: int,
)
    requires
        sorted_from::<T, O>(left, items, left_places),
        sorted_from::<T, O>(right, items, right_places),
        0 <= n <= items.len(),
    ensures
        forall|i: int| 0 <= i < n ==> #[trigger] left_places[i] == right_places[i],
    decreases n,
{
    if n > 0 {
        let at = n - 1;
        lemma_same_places::<T, O>(items, left, left_places, right, right_places, at);
        let a = left_places[at];
        let b = right_places[at];
        if a != b {
            lemma_position_listed(right_places, items.len(), a);
            lemma_position_listed(left_places, items.len(), b);
            let j = choose|j: int| 0 <= j < items.len() && #[trigger] right_places[j] == a;
            let k = choose|k: int| 0 <= k < items.len() && #[trigger] left_places[k] == b;
            if j < at {
                assert(left_places[j] == right_places[j]);
            }
            if k < at {
                assert(left_places[k] == right_places[k]);
            }
            assert(comes_before::<T, O>(items, right_places[at], right_places[j]));
            assert(comes_before::<T, O>(items, left_places[at], left_places[k]));
        }
    }
}

/// A list has one stable sort.
pub proof fn law_one_stable_sort<T: View, O: Order<T>>(sorted: Seq<T::V>, items: Seq<T::V>)
    requires
        is_stable_sort::<T, O>(sorted, items),
    ensures
        sorted == stably_sorted::<T, O>(items),
{
    let other = stably_sorted::<T, O>(items);
    assert(is_stable_sort::<T, O>(other, items));
    let left = choose|places: Seq<int>| sorted_from::<T, O>(sorted, items, places);
    let right = choose|places: Seq<int>| sorted_from::<T, O>(other, items, places);
    lemma_same_places::<T, O>(items, sorted, left, other, right, items.len() as int);
    assert forall|i: int| 0 <= i < items.len() implies sorted[i] == other[i] by {
        assert(left[i] == right[i]);
        assert(sorted[i] == items[left[i]]);
        assert(other[i] == items[right[i]]);
    }
    assert(sorted =~= other);
}

/// The stable sort of a list holds each value as often as the list does.
pub proof fn lemma_sort_keeps_count<T: View, O: Order<T>>(items: Seq<T::V>)
    ensures
        stably_sorted::<T, O>(items).to_multiset() == items.to_multiset(),
{
    let (sorted, places) = lemma_sort_of::<T, O>(items);
    assert(sorted_from::<T, O>(sorted, items, places));
    law_one_stable_sort::<T, O>(sorted, items);
}

/// Sorts a list; elements that tie keep the order in which they stood.
pub fn stable_sort<T: View, O: Order<T>>(items: Vec<T>) -> (sorted: Vec<T>)
    ensures
        is_stable_sort::<T, O>(views::views(sorted@), views::views(items@)),
        views::views(sorted@) == stably_sorted::<T, O>(views::views(items@)),
{
    let mut sorted: Vec<T> = Vec::new();
    let ghost input = views::views(items@);
    let ghost mut places: Seq<int> = Seq::empty();
    assert(sorted_from::<T, O>(views::views(sorted@), input.take(0), places));
    for item in it: items
        invariant
            views::views(it.seq()) == input,
            places.len() == it.index(),
            sorted@.len() == it.index(),
            it.index() <= input.len(),
            sorted_from::<T, O>(views::views(sorted@), input.take(it.index() as int), places),
    {
        let ghost count = it.index() as int;
        let ghost done = input.take(count);
        let ghost before = views::views(sorted@);
        let ghost old_places = places;
        let mut at: usize = sorted.len();
        while at > 0 && !O::in_order(&sorted[at - 1], &item)
            invariant
                at <= sorted@.len(),
                before == views::views(sorted@),
                forall|k: int| at <= k < before.len() ==> !O::le(#[trigger] before[k], item@),
            decreases at,
        {
            assert(before[at - 1] == sorted@[at - 1]@);
            at -= 1;
        }
        let ghost value = item@;
        proof {
            let next = input.take(count + 1);
            assert(next =~= done.push(value));
            if at > 0 {
                assert(before[at - 1] == sorted@[at - 1]@);
            }
            assert forall|k: int| 0 <= k < at implies O::le(#[trigger] before[k], value) by {
                if k < at - 1 {
                    assert(comes_before::<T, O>(done, old_places[k], old_places[at - 1]));
                    O::transitive(before[k], before[at - 1], value);
                }
            }
            lemma_insert_sorted::<T, O>(before, done, old_places, at as int, value);
            places = old_places.insert(at as int, count);
        }
        sorted.insert(at, item);
        assert(views::views(sorted@) =~= before.insert(at as int, value));
    }
    proof {
        assert(input.take(input.len() as int) =~= input);
        law_one_stable_sort::<T, O>(views::views(sorted@), input);
    }
    sorted
}

/// Bytes stand before others exactly where, at the first place where they differ,
/// the one byte is smaller, or where the others only go on.
pub proof fn law_byte_order(left: Seq<u8>, right: Seq<u8>)
    ensures
        byte_order(left, right) == Standing::Earlier <==> exists|k: int|
            0 <= k <= left.len() && k < right.len() && #[trigger] left.take(k) == right.take(k) && (k
                == left.len() || left[k] < right[k]),
        byte_order(left, right) == Standing::Same <==> left == right,
    decreases left.len(),
{
    lemma_byte_order(left, right);
    if left.len() == 0 {
        assert(left.take(0) =~= right.take(0));
    } else if right.len() > 0 && left[0] == right[0] {
        let a = left.skip(1);
        let b = right.skip(1);
        law_byte_order(a, b);
        if byte_order(a, b) == Standing::Earlier {
            let k = choose|k: int|
                0 <= k <= a.len() && k < b.len() && #[trigger] a.take(k) == b.take(k) && (k
                    == a.len() || a[k] < b[k]);
            assert forall|i: int| 0 <= i < k + 1 implies left[i] == right[i] by {
                if i > 0 {
                    assert(a.take(k)[i - 1] == b.take(k)[i - 1]);
                }
            }
            assert(left.take(k + 1) =~= right.take(k + 1));
        }
        if exists|k: int|
            0 <= k <= left.len() && k < right.len() && #[trigger] left.take(k) == right.take(k) && (k
                == left.len() || left[k] < right[k]) {
            let k = choose|k: int|
                0 <= k <= left.len() && k < right.len() && #[trigger] left.take(k) == right.take(k)
                    && (k == left.len() || left[k] < right[k]);
            assert(k > 0);
            assert forall|i: int| 0 <= i < k - 1 implies a[i] == b[i] by {
                assert(left.take(k)[i + 1] == right.take(k)[i + 1]);
            }
            assert(a.take(k - 1) =~= b.take(k - 1));
        }
    } else if right.len() > 0 {
        assert(left.take(0) =~= right.take(0));
        if exists|k: int|
            0 <= k <= left.len() && k < right.len() && #[trigger] left.take(k) == right.take(k) && (k
                == left.len() || left[k] < right[k]) {
            let k = choose|k: int|
                0 <= k <= left.len() && k < right.len() && #[trigger] left.take(k) == right.take(k)
                    && (k == left.len() || left[k] < right[k]);
            if k > 0 {
                assert(left.take(k)[0] == right.take(k)[0]);
            }
        }
    }
}

/// Sorting loses nothing, adds nothing and puts everything in order; of two
/// values that tie, the one that stood first comes first.
pub proof fn law_stable_sort<T: View, O: Order<T>>(items: Seq<T::V>, a: int, b: int)
    requires
        0 <= a < b < items.len(),
        O::le(items[a], items[b]),
    ensures
        stably_sorted::<T, O>(items).to_multiset() == items.to_multiset(),
        forall|i: int, j: int|
            0 <= i < j < items.len() ==> O::le(
                #[trigger] stably_sorted::<T, O>(items)[i],
                #[trigger] stably_sorted::<T, O>(items)[j],
            ),
        exists|i: int, j: int|
            0 <= i < j < items.len() && #[trigger] stably_sorted::<T, O>(items)[i] == items[a]
                && #[trigger] stably_sorted::<T, O>(items)[j] == items[b],
{
    lemma_sort_keeps::<T, O>(items);
    lemma_sort_keeps_count::<T, O>(items);
    lemma_sort_exists::<T, O>(items);
    let sorted = stably_sorted::<T, O>(items);
    let places = choose|places: Seq<int>| sorted_from::<T, O>(sorted, items, places);
    lemma_position_listed(places, items.len(), a);
    lemma_position_listed(places, items.len(), b);
    let i = choose|i: int| 0 <= i < items.len() && #[trigger] places[i] == a;
    let j = choose|j: int| 0 <= j < items.len() && #[trigger] places[j] == b;
    assert(sorted[i] == items[places[i]]);
    assert(sorted[j] == items[places[j]]);
    if j < i {
        assert(comes_before::<T, O>(items, places[j], places[i]));
    }
    assert(i < j);
}

/// Lists that start alike stand to each other as what follows does.
pub proof fn lemma_list_order_after(before: Seq<Seq<u8>>, left: Seq<Seq<u8>>, right: Seq<Seq<u8>>)
    ensures
        list_order(before + left, before + right) == list_order(left, right),
    decreases before.len(),
{
    if before.len() == 0 {
        assert(before + left =~= left);
        assert(before + right =~= right);
    } else {
        lemma_byte_order(before[0], before[0]);
        assert((before + left)[0] == before[0] && (before + right)[0] == before[0]);
        assert((before + left).skip(1) =~= before.skip(1) + left);
        assert((before + right).skip(1) =~= before.skip(1) + right);
        lemma_list_order_after(before.skip(1), left, right);
    }
}

} // verus!
