//! The order in which files are listed: the ones changed last come first.

use crate::chars;
use vstd::prelude::*;

verus! {

/// When a file was changed.
#[derive(Debug, Clone, Copy, PartialEq, Eq, Structural)]
pub enum Modified {
    Unknown,
    /// A time before the epoch, which counts like an unknown one.
    BeforeEpoch,
    /// Nanoseconds since the epoch.
    At(u128),
}

/// Whether a text comes before another, character by character.
pub open spec fn text_before(left: Seq<char>, right: Seq<char>) -> bool
    decreases left.len(),
{
    if right.len() == 0 {
        false
    } else if left.len() == 0 {
        true
    } else if left[0] != right[0] {
        (left[0] as u32) < (right[0] as u32)
    } else {
        text_before(left.drop_first(), right.drop_first())
    }
}

/// The time by which files are ordered, which is unknown for some.
pub open spec fn sort_key(modified: Modified) -> Option<u128> {
    match modified {
        Modified::At(time) => Some(time),
        _ => None,
    }
}

/// Whether a file is listed before another: the one changed later, those with an unknown time
/// last, and by path where the times do not tell them apart.
pub open spec fn listed_before(
    left_modified: Modified,
    left_path: Seq<char>,
    right_modified: Modified,
    right_path: Seq<char>,
) -> bool {
    match (sort_key(left_modified), sort_key(right_modified)) {
        (Some(left), Some(right)) => left > right || (left == right && text_before(
            left_path,
            right_path,
        )),
        (Some(_), None) => true,
        (None, Some(_)) => false,
        (None, None) => text_before(left_path, right_path),
    }
}

pub fn text_comes_before(left: &str, right: &str) -> (before: bool)
    ensures
        before == text_before(left@, right@),
{
    let a = chars::chars_of(left);
    let b = chars::chars_of(right);
    let mut i: usize = 0;
    assert(left@.skip(0) =~= left@);
    assert(right@.skip(0) =~= right@);
    while i < a.len() && i < b.len() && a[i] == b[i]
        invariant
            i <= a@.len(),
            i <= b@.len(),
            a@ == left@,
            b@ == right@,
            text_before(left@, right@) == text_before(left@.skip(i as int), right@.skip(i as int)),
        decreases a@.len() - i,
    {
        assert(left@.skip(i as int)[0] == left@[i as int]);
        assert(right@.skip(i as int)[0] == right@[i as int]);
        assert(left@.skip(i as int).drop_first() =~= left@.skip(i + 1));
        assert(right@.skip(i as int).drop_first() =~= right@.skip(i + 1));
        i = i + 1;
    }
    if i == b.len() {
        return false;
    }
    if i == a.len() {
        return true;
    }
    assert(left@.skip(i as int)[0] == left@[i as int]);
    assert(right@.skip(i as int)[0] == right@[i as int]);
    (a[i] as u32) < (b[i] as u32)
}

pub fn modified_desc_then_path(
    left_modified: Modified,
    left_path: &str,
    right_modified: Modified,
    right_path: &str,
) -> (before: bool)
    ensures
        before == listed_before(left_modified, left_path@, right_modified, right_path@),
{
    match (left_modified, right_modified) {
        (Modified::At(left), Modified::At(right)) => left > right || (left == right
            && text_comes_before(left_path, right_path)),
        (Modified::At(_), _) => true,
        (_, Modified::At(_)) => false,
        _ => text_comes_before(left_path, right_path),
    }
}

/// The place behind those of the first `k` items that are not listed after a new one.
pub open spec fn place<T>(
    items: Seq<T>,
    item: T,
    before: spec_fn(T, T) -> bool,
    k: int,
) -> int
    decreases k,
{
    if k > 0 && before(item, items[k - 1]) {
        place(items, item, before, k - 1)
    } else {
        k
    }
}

/// The first `count` items in order; those that the order does not tell apart stay as they were.
pub open spec fn ordered<T>(items: Seq<T>, before: spec_fn(T, T) -> bool, count: int) -> Seq<T>
    decreases count,
{
    if count <= 0 {
        Seq::empty()
    } else {
        let earlier = ordered(items, before, count - 1);
        earlier.insert(
            place(earlier, items[count - 1], before, earlier.len() as int),
            items[count - 1],
        )
    }
}

proof fn lemma_place_bound<T>(items: Seq<T>, item: T, before: spec_fn(T, T) -> bool, k: int)
    requires
        0 <= k <= items.len(),
    ensures
        0 <= place(items, item, before, k) <= k,
        forall|i: int| place(items, item, before, k) <= i < k ==> before(item, #[trigger] items[i]),
        place(items, item, before, k) > 0 ==> !before(
            item,
            items[place(items, item, before, k) - 1],
        ),
    decreases k,
{
    if k > 0 {
        lemma_place_bound(items, item, before, k - 1);
    }
}

pub proof fn lemma_place_in_range<T>(items: Seq<T>, item: T, before: spec_fn(T, T) -> bool, k: int)
    requires
        0 <= k <= items.len(),
    ensures
        0 <= place(items, item, before, k) <= k,
{
    lemma_place_bound(items, item, before, k);
}

pub proof fn lemma_ordered_len<T>(items: Seq<T>, before: spec_fn(T, T) -> bool, count: int)
    requires
        0 <= count <= items.len(),
    ensures
        ordered(items, before, count).len() == count,
    decreases count,
{
    if count > 0 {
        lemma_ordered_len(items, before, count - 1);
        let earlier = ordered(items, before, count - 1);
        lemma_place_bound(earlier, items[count - 1], before, earlier.len() as int);
    }
}

/// Puts items in order; those that the order does not tell apart stay as they were.
pub fn sort_items<T, F: Fn(&T, &T) -> bool>(
    items: Vec<T>,
    is_before: F,
    Ghost(before): Ghost<spec_fn(T, T) -> bool>,
) -> (sorted: Vec<T>)
    requires
        forall|a: &T, b: &T| call_requires(is_before, (a, b)),
        forall|a: &T, b: &T, r: bool|
            call_ensures(is_before, (a, b), r) ==> r == before(*a, *b),
    ensures
        sorted@ == ordered(items@, before, items@.len() as int),
{
    let ghost all = items@;
    let mut sorted: Vec<T> = Vec::new();
    for item in iter: items
        invariant
            iter.seq() == all,
            forall|a: &T, b: &T| call_requires(is_before, (a, b)),
            forall|a: &T, b: &T, r: bool|
                call_ensures(is_before, (a, b), r) ==> r == before(*a, *b),
            sorted@ == ordered(all, before, iter.index() as int),
    {
        let ghost earlier = sorted@;
        let mut at: usize = sorted.len();
        while at > 0 && is_before(&item, &sorted[at - 1])
            invariant
                at <= sorted@.len(),
                sorted@ == earlier,
                forall|a: &T, b: &T| call_requires(is_before, (a, b)),
                forall|a: &T, b: &T, r: bool|
                    call_ensures(is_before, (a, b), r) ==> r == before(*a, *b),
                place(earlier, item, before, earlier.len() as int) == place(
                    earlier,
                    item,
                    before,
                    at as int,
                ),
            decreases at,
        {
            at = at - 1;
        }
        sorted.insert(at, item);
        proof {
            lemma_place_bound(earlier, item, before, earlier.len() as int);
        }
    }
    sorted
}

/// To put items in order loses none, adds none and changes none.
pub proof fn law_order_keeps_items<T>(items: Seq<T>, before: spec_fn(T, T) -> bool, count: int)
    requires
        0 <= count <= items.len(),
    ensures
        ordered(items, before, count).to_multiset() == items.take(count).to_multiset(),
    decreases count,
{
    broadcast use vstd::seq_lib::group_to_multiset_ensures;

    if count > 0 {
        law_order_keeps_items(items, before, count - 1);
        let earlier = ordered(items, before, count - 1);
        let item = items[count - 1];
        let at = place(earlier, item, before, earlier.len() as int);
        lemma_place_bound(earlier, item, before, earlier.len() as int);
        lemma_insert_multiset(earlier, at, item);
        assert(items.take(count) =~= items.take(count - 1).push(item));
        vstd::seq_lib::to_multiset_build(items.take(count - 1), item);
    } else {
        assert(items.take(0) =~= Seq::<T>::empty());
        assert(ordered(items, before, 0) =~= Seq::<T>::empty());
    }
}

proof fn lemma_insert_multiset<T>(items: Seq<T>, at: int, item: T)
    requires
        0 <= at <= items.len(),
    ensures
        items.insert(at, item).to_multiset() == items.to_multiset().insert(item),
{
    broadcast use vstd::seq_lib::group_to_multiset_ensures;

    let whole = items.insert(at, item);
    assert(whole =~= items.take(at).push(item) + items.skip(at));
    assert(items =~= items.take(at) + items.skip(at));
    vstd::seq_lib::lemma_multiset_commutative(items.take(at).push(item), items.skip(at));
    vstd::seq_lib::lemma_multiset_commutative(items.take(at), items.skip(at));
    vstd::seq_lib::to_multiset_build(items.take(at), item);
    assert(whole.to_multiset() =~= items.to_multiset().insert(item));
}

proof fn lemma_characters_differ(a: char, b: char)
    ensures
        a != b ==> a as u32 != b as u32,
{
}

/// A text never comes before itself, and of two texts at most one comes before the other.
pub proof fn law_text_order_is_strict(left: Seq<char>, right: Seq<char>)
    ensures
        !(text_before(left, right) && text_before(right, left)),
        left != right ==> text_before(left, right) || text_before(right, left),
    decreases left.len(),
{
    if left.len() > 0 && right.len() > 0 && left[0] == right[0] {
        law_text_order_is_strict(left.drop_first(), right.drop_first());
        assert(left.drop_first() == right.drop_first() ==> left == right) by {
            assert(left =~= seq![left[0]] + left.drop_first());
            assert(right =~= seq![right[0]] + right.drop_first());
        }
    } else if left.len() == 0 && right.len() == 0 {
        assert(left =~= right);
    } else if left.len() > 0 && right.len() > 0 {
        lemma_characters_differ(left[0], right[0]);
    }
}

/// A text that comes before a second one, which comes before a third, comes before the third.
pub proof fn law_text_order_is_transitive(a: Seq<char>, b: Seq<char>, c: Seq<char>)
    requires
        text_before(a, b),
        text_before(b, c),
    ensures
        text_before(a, c),
    decreases a.len(),
{
    if a.len() > 0 && a[0] == b[0] && b[0] == c[0] {
        law_text_order_is_transitive(a.drop_first(), b.drop_first(), c.drop_first());
    }
}

/// Whether no item is listed before one that stands ahead of it.
pub open spec fn is_ordered<T>(items: Seq<T>, before: spec_fn(T, T) -> bool) -> bool {
    forall|i: int, j: int|
        0 <= i < j < items.len() ==> !before(#[trigger] items[j], #[trigger] items[i])
}

/// Whether an order can be relied on: an item that is not listed before a second one, which is not
/// listed before a third, is not listed before the third, and of two items one is not listed
/// before the other.
pub open spec fn is_order<T>(before: spec_fn(T, T) -> bool) -> bool {
    &&& forall|a: T, b: T, c: T|
        !#[trigger] before(a, b) && !#[trigger] before(b, c) ==> !before(a, c)
    &&& forall|a: T, b: T| #[trigger] before(a, b) ==> !before(b, a)
}

/// Items that were put in order are in order.
pub proof fn law_ordered_items_are_in_order<T>(
    items: Seq<T>,
    before: spec_fn(T, T) -> bool,
    count: int,
)
    requires
        0 <= count <= items.len(),
        is_order(before),
    ensures
        is_ordered(ordered(items, before, count), before),
    decreases count,
{
    if count > 0 {
        law_ordered_items_are_in_order(items, before, count - 1);
        let earlier = ordered(items, before, count - 1);
        let item = items[count - 1];
        let at = place(earlier, item, before, earlier.len() as int);
        lemma_place_bound(earlier, item, before, earlier.len() as int);
        let after = ordered(items, before, count);
        assert(after == earlier.insert(at, item));
        assert forall|i: int, j: int| 0 <= i < j < after.len() implies !before(
            #[trigger] after[j],
            #[trigger] after[i],
        ) by {
            if j == at {
                assert(after[i] == earlier[i]);
                assert(!before(item, earlier[at - 1]));
                if i < at - 1 {
                    assert(!before(earlier[at - 1], earlier[i]));
                }
            } else if i == at {
                assert(after[j] == earlier[j - 1]);
                assert(before(item, earlier[j - 1]));
            } else {
                let old_i = if i < at {
                    i
                } else {
                    i - 1
                };
                let old_j = if j < at {
                    j
                } else {
                    j - 1
                };
                assert(after[i] == earlier[old_i]);
                assert(after[j] == earlier[old_j]);
            }
        }
    }
}

/// The order of files by the time of their last change and by their paths.
pub open spec fn file_order() -> spec_fn((Modified, Seq<char>), (Modified, Seq<char>)) -> bool {
    |left: (Modified, Seq<char>), right: (Modified, Seq<char>)|
        listed_before(left.0, left.1, right.0, right.1)
}

/// The order of files can be relied on.
pub proof fn law_file_order_is_an_order()
    ensures
        is_order(file_order()),
{
    let before = file_order();
    assert forall|
        a: (Modified, Seq<char>),
        b: (Modified, Seq<char>),
        c: (Modified, Seq<char>),
    |
        !#[trigger] before(a, b) && !#[trigger] before(b, c) implies !before(a, c) by {
        if text_before(a.1, c.1) {
            law_text_order_is_strict(a.1, b.1);
            if text_before(b.1, a.1) {
                law_text_order_is_transitive(b.1, a.1, c.1);
            }
        }
    }
    assert forall|a: (Modified, Seq<char>), b: (Modified, Seq<char>)| #[trigger]
        before(a, b) implies !before(b, a) by {
        law_text_order_is_strict(a.1, b.1);
    }
}

/// Files with a later change are listed before those with an earlier one, and files whose time is
/// not known, or lies before all times that are counted, behind all others. Where the times do not
/// tell two files apart their paths do.
pub proof fn law_newest_files_come_first(
    left: Modified,
    left_path: Seq<char>,
    right: Modified,
    right_path: Seq<char>,
)
    ensures
        ({
            let before = listed_before(left, left_path, right, right_path);
            &&& left is At && right is At && left->At_0 > right->At_0 ==> before
            &&& left is At && right is At && left->At_0 < right->At_0 ==> !before
            &&& left is At && !(right is At) ==> before
            &&& !(left is At) && right is At ==> !before
            &&& left is At && right is At && left->At_0 == right->At_0 ==> before == text_before(
                left_path,
                right_path,
            )
            &&& !(left is At) && !(right is At) ==> before == text_before(left_path, right_path)
        }),
{
}

/// Two texts that start alike are ordered by the first character in which they differ; a text that
/// ends where the other goes on comes first.
pub proof fn law_first_difference_orders_texts(
    start: Seq<char>,
    left: Seq<char>,
    right: Seq<char>,
)
    ensures
        left.len() == 0 && right.len() > 0 ==> text_before(start + left, start + right),
        left.len() > 0 && right.len() == 0 ==> !text_before(start + left, start + right),
        left.len() > 0 && right.len() > 0 && left[0] != right[0] ==> (text_before(
            start + left,
            start + right,
        ) <==> (left[0] as u32) < (right[0] as u32)),
    decreases start.len(),
{
    if start.len() > 0 {
        law_first_difference_orders_texts(start.drop_first(), left, right);
        assert((start + left).drop_first() =~= start.drop_first() + left);
        assert((start + right).drop_first() =~= start.drop_first() + right);
    } else {
        assert(start + left =~= left);
        assert(start + right =~= right);
    }
}

} // verus!
