//! Stable sorting by a text and a number.

use crate::text;
use vstd::prelude::*;

verus! {

/// Dictionary order of texts, by the code points of their characters.
pub open spec fn text_less(a: Seq<char>, b: Seq<char>) -> bool
    decreases a.len(),
{
    if b.len() == 0 {
        false
    } else if a.len() == 0 {
        true
    } else if a[0] == b[0] {
        text_less(a.skip(1), b.skip(1))
    } else {
        a[0] < b[0]
    }
}

/// No text comes before itself.
pub proof fn text_less_is_irreflexive(a: Seq<char>)
    ensures
        !text_less(a, a),
    decreases a.len(),
{
    if a.len() > 0 {
        text_less_is_irreflexive(a.skip(1));
    }
}

/// Dictionary order is transitive.
pub proof fn text_less_is_transitive(a: Seq<char>, b: Seq<char>, c: Seq<char>)
    requires
        text_less(a, b),
        text_less(b, c),
    ensures
        text_less(a, c),
    decreases a.len(),
{
    if a.len() > 0 && a[0] == b[0] && b[0] == c[0] {
        text_less_is_transitive(a.skip(1), b.skip(1), c.skip(1));
    }
}

/// Of two different texts one comes first.
pub proof fn text_less_is_total(a: Seq<char>, b: Seq<char>)
    ensures
        text_less(a, b) || text_less(b, a) || a == b,
    decreases a.len(),
{
    if a.len() > 0 && b.len() > 0 && a[0] == b[0] {
        text_less_is_total(a.skip(1), b.skip(1));
        if a.skip(1) == b.skip(1) {
            assert(a =~= seq![a[0]] + a.skip(1));
            assert(b =~= seq![b[0]] + b.skip(1));
        }
    } else if a.len() == 0 && b.len() == 0 {
        assert(a =~= b);
    }
}

/// Tests whether one text comes before another.
pub fn is_text_less(a: &str, b: &str) -> (r: bool)
    ensures
        r == text_less(a@, b@),
{
    let x: Vec<char> = text::chars_of(a);
    let y: Vec<char> = text::chars_of(b);
    let mut i: usize = 0;
    assert(x@.skip(0) == x@ && y@.skip(0) == y@);
    while i < x.len() && i < y.len()
        invariant
            i <= x@.len(),
            i <= y@.len(),
            text_less(a@, b@) == text_less(x@.skip(i as int), y@.skip(i as int)),
        decreases x@.len() - i,
    {
        if x[i] != y[i] {
            return x[i] < y[i];
        }
        assert(x@.skip(i as int).skip(1) == x@.skip(i + 1));
        assert(y@.skip(i as int).skip(1) == y@.skip(i + 1));
        i = i + 1;
    }
    i < y.len()
}

/// What an item is sorted by: first the text, then the number.
#[verifier::ext_equal]
pub struct SortKey<T = String> {
    pub name: T,
    pub number: i64,
}

impl View for SortKey {
    type V = SortKey<Seq<char>>;

    open spec fn view(&self) -> Self::V {
        SortKey { name: self.name@, number: self.number }
    }
}

/// Whether one key comes before another.
pub open spec fn key_less(a: SortKey<Seq<char>>, b: SortKey<Seq<char>>) -> bool {
    text_less(a.name, b.name) || (a.name == b.name && a.number < b.number)
}

/// Whether the item at `a` is placed before the one at `b`: by key, else by position.
pub open spec fn placed_before(keys: Seq<SortKey<Seq<char>>>, a: int, b: int) -> bool {
    key_less(keys[a], keys[b]) || (keys[a] == keys[b] && a < b)
}

/// The positions of the items in sorted order: every position once, keys upwards, items with
/// equal keys in the order in which they came.
pub open spec fn sorted_order(keys: Seq<SortKey<Seq<char>>>, order: Seq<usize>) -> bool {
    &&& order.len() == keys.len()
    &&& forall|i: int| 0 <= i < order.len() ==> 0 <= #[trigger] order[i] < keys.len()
    &&& forall|i: int, j: int|
        0 <= i < j < order.len() ==> placed_before(
            keys,
            #[trigger] order[i] as int,
            #[trigger] order[j] as int,
        )
}

proof fn lemma_placed_transitive(keys: Seq<SortKey<Seq<char>>>, a: int, b: int, c: int)
    requires
        placed_before(keys, a, b),
        placed_before(keys, b, c),
    ensures
        placed_before(keys, a, c),
{
    if text_less(keys[a].name, keys[b].name) && text_less(keys[b].name, keys[c].name) {
        text_less_is_transitive(keys[a].name, keys[b].name, keys[c].name);
    }
}

proof fn lemma_placed_irreflexive(keys: Seq<SortKey<Seq<char>>>, a: int)
    ensures
        !placed_before(keys, a, a),
{
    text_less_is_irreflexive(keys[a].name);
}

/// Sorting is a rearrangement: no position occurs twice in the sorted order.
pub proof fn sorted_order_is_a_permutation(keys: Seq<SortKey<Seq<char>>>, order: Seq<usize>)
    requires
        sorted_order(keys, order),
    ensures
        order.no_duplicates(),
{
    assert forall|i: int, j: int|
        0 <= i < order.len() && 0 <= j < order.len() && i != j implies order[i] != order[j] by {
        if order[i] == order[j] {
            lemma_placed_irreflexive(keys, order[i] as int);
            if i < j {
                assert(placed_before(keys, order[i] as int, order[j] as int));
            } else {
                assert(placed_before(keys, order[j] as int, order[i] as int));
            }
        }
    }
}

proof fn lemma_same_prefix(
    keys: Seq<SortKey<Seq<char>>>,
    a: Seq<usize>,
    b: Seq<usize>,
    n: int,
)
    requires
        sorted_order(keys, a),
        sorted_order(keys, b),
        0 <= n <= keys.len(),
    ensures
        a.take(n) == b.take(n),
    decreases n,
{
    if n > 0 {
        lemma_same_prefix(keys, a, b, n - 1);
        let m = n - 1;
        if a[m] != b[m] {
            lemma_occurs(keys, b, a[m] as int);
            lemma_occurs(keys, a, b[m] as int);
            let i = choose|i: int| 0 <= i < b.len() && b[i] == a[m];
            let j = choose|j: int| 0 <= j < a.len() && a[j] == b[m];
            sorted_order_is_a_permutation(keys, a);
            sorted_order_is_a_permutation(keys, b);
            if i < m {
                assert(a.take(m)[i] == b.take(m)[i]);
                assert(a[i] == a[m]);
            }
            if j < m {
                assert(a.take(m)[j] == b.take(m)[j]);
                assert(b[j] == b[m]);
            }
            assert(placed_before(keys, b[m] as int, b[i] as int));
            assert(placed_before(keys, a[m] as int, a[j] as int));
            lemma_placed_transitive(keys, a[m] as int, b[m] as int, a[m] as int);
            lemma_placed_irreflexive(keys, a[m] as int);
        }
        assert(a.take(n) =~= a.take(m).push(a[m]));
        assert(b.take(n) =~= b.take(m).push(b[m]));
    }
}

proof fn lemma_occurs(keys: Seq<SortKey<Seq<char>>>, order: Seq<usize>, x: int)
    requires
        sorted_order(keys, order),
        0 <= x < keys.len(),
    ensures
        exists|i: int| 0 <= i < order.len() && order[i] == x,
{
    sorted_order_is_a_permutation(keys, order);
    let s = order.map_values(|p: usize| p as int);
    assert(s.no_duplicates());
    if !(exists|i: int| 0 <= i < order.len() && order[i] == x) {
        let all = vstd::set_lib::set_int_range(0, keys.len() as int);
        vstd::set_lib::lemma_int_range(0, keys.len() as int);
        s.unique_seq_to_set();
        let rest = all.remove(x);
        assert(s.to_set().subset_of(rest)) by {
            assert forall|p: int| #[trigger] s.to_set().contains(p) implies rest.contains(p) by {
                let i = choose|i: int| 0 <= i < s.len() && s[i] == p;
                assert(order[i] == p);
            }
        }
        vstd::set_lib::lemma_len_subset(s.to_set(), rest);
    }
}

fn is_placed_before(keys: &Vec<SortKey>, a: usize, b: usize) -> (r: bool)
    requires
        a < keys@.len(),
        b < keys@.len(),
    ensures
        r == placed_before(text::views(keys@), a as int, b as int),
{
    let x: &SortKey = &keys[a];
    let y: &SortKey = &keys[b];
    if is_text_less(x.name.as_str(), y.name.as_str()) {
        return true;
    }
    if !text::same(x.name.as_str(), y.name.as_str()) {
        return false;
    }
    x.number < y.number || (x.number == y.number && a < b)
}

/// Whether the positions in `part` lie in a range and are in order.
spec fn sorted_part(keys: Seq<SortKey<Seq<char>>>, part: Seq<usize>, from: int, to: int) -> bool {
    &&& part.len() == to - from
    &&& forall|i: int| 0 <= i < part.len() ==> from <= #[trigger] part[i] < to
    &&& forall|i: int, j: int|
        0 <= i < j < part.len() ==> placed_before(
            keys,
            #[trigger] part[i] as int,
            #[trigger] part[j] as int,
        )
}

fn merge_parts(
    keys: &Vec<SortKey>,
    left: Vec<usize>,
    right: Vec<usize>,
    Ghost(from): Ghost<int>,
    Ghost(middle): Ghost<int>,
    Ghost(to): Ghost<int>,
) -> (out: Vec<usize>)
    requires
        0 <= from <= middle <= to <= keys@.len(),
        sorted_part(text::views(keys@), left@, from, middle),
        sorted_part(text::views(keys@), right@, middle, to),
    ensures
        sorted_part(text::views(keys@), out@, from, to),
{
    let ghost k = text::views(keys@);
    let mut out: Vec<usize> = Vec::new();
    let mut i: usize = 0;
    let mut j: usize = 0;
    while i < left.len() || j < right.len()
        invariant
            k == text::views(keys@),
            0 <= from <= middle <= to <= keys@.len(),
            sorted_part(k, left@, from, middle),
            sorted_part(k, right@, middle, to),
            i <= left@.len(),
            j <= right@.len(),
            out@.len() == i + j,
            forall|m: int| 0 <= m < out@.len() ==> from <= #[trigger] out@[m] < to,
            forall|m: int, n: int|
                0 <= m < n < out@.len() ==> placed_before(
                    k,
                    #[trigger] out@[m] as int,
                    #[trigger] out@[n] as int,
                ),
            forall|m: int, n: int|
                0 <= m < out@.len() && i <= n < left@.len() ==> placed_before(
                    k,
                    #[trigger] out@[m] as int,
                    #[trigger] left@[n] as int,
                ),
            forall|m: int, n: int|
                0 <= m < out@.len() && j <= n < right@.len() ==> placed_before(
                    k,
                    #[trigger] out@[m] as int,
                    #[trigger] right@[n] as int,
                ),
        decreases left@.len() - i + right@.len() - j,
    {
        let take_left: bool = if i == left.len() {
            false
        } else if j == right.len() {
            true
        } else {
            is_placed_before(keys, left[i], right[j])
        };
        if take_left {
            let x: usize = left[i];
            proof {
                assert forall|n: int| j <= n < right@.len() implies placed_before(
                    k,
                    x as int,
                    #[trigger] right@[n] as int,
                ) by {
                    if n > j {
                        assert(placed_before(k, right@[j as int] as int, right@[n] as int));
                        lemma_placed_transitive(
                            k,
                            x as int,
                            right@[j as int] as int,
                            right@[n] as int,
                        );
                    }
                }
            }
            out.push(x);
            i = i + 1;
        } else {
            let x: usize = right[j];
            proof {
                if i < left@.len() {
                    let a = left@[i as int] as int;
                    let b = right@[j as int] as int;
                    text_less_is_total(k[a].name, k[b].name);
                    assert(k[a].name == k[b].name && k[a].number == k[b].number ==> k[a] =~= k[b]);
                    assert(a < b);
                    assert(placed_before(k, b, a));
                }
                assert forall|n: int| i <= n < left@.len() implies placed_before(
                    k,
                    x as int,
                    #[trigger] left@[n] as int,
                ) by {
                    if n > i {
                        assert(placed_before(k, left@[i as int] as int, left@[n] as int));
                        lemma_placed_transitive(
                            k,
                            x as int,
                            left@[i as int] as int,
                            left@[n] as int,
                        );
                    }
                }
            }
            out.push(x);
            j = j + 1;
        }
    }
    out
}

fn sort_part(keys: &Vec<SortKey>, from: usize, to: usize) -> (out: Vec<usize>)
    requires
        from <= to <= keys@.len(),
    ensures
        sorted_part(text::views(keys@), out@, from as int, to as int),
    decreases to - from,
{
    if to - from <= 1 {
        let mut out: Vec<usize> = Vec::new();
        if from < to {
            out.push(from);
        }
        return out;
    }
    let middle: usize = from + (to - from) / 2;
    let left: Vec<usize> = sort_part(keys, from, middle);
    let right: Vec<usize> = sort_part(keys, middle, to);
    merge_parts(
        keys,
        left,
        right,
        Ghost(from as int),
        Ghost(middle as int),
        Ghost(to as int),
    )
}

/// The positions of the items in sorted order.
pub fn stable_order(keys: &Vec<SortKey>) -> (order: Vec<usize>)
    ensures
        sorted_order(text::views(keys@), order@),
{
    sort_part(keys, 0, keys.len())
}

/// There is only one sorted order.
pub proof fn sorted_order_is_unique(keys: Seq<SortKey<Seq<char>>>, a: Seq<usize>, b: Seq<usize>)
    requires
        sorted_order(keys, a),
        sorted_order(keys, b),
    ensures
        a == b,
{
    lemma_same_prefix(keys, a, b, keys.len() as int);
    assert(a.take(keys.len() as int) == a);
    assert(b.take(keys.len() as int) == b);
}

/// Ascending order of texts.
pub open spec fn ascending() -> spec_fn(Seq<char>, Seq<char>) -> bool {
    |a: Seq<char>, b: Seq<char>| !text_less(b, a)
}

proof fn lemma_ascending_is_total()
    ensures
        vstd::relations::total_ordering(ascending()),
{
    let leq = ascending();
    assert forall|a: Seq<char>| #[trigger] leq(a, a) by {
        text_less_is_irreflexive(a);
    }
    assert forall|a: Seq<char>, b: Seq<char>| #[trigger] leq(a, b) && #[trigger] leq(b, a)
        implies a == b by {
        text_less_is_total(a, b);
    }
    assert forall|a: Seq<char>, b: Seq<char>, c: Seq<char>| #[trigger]
        leq(a, b) && #[trigger] leq(b, c) implies leq(a, c) by {
        if text_less(c, a) {
            text_less_is_total(a, b);
            if a != b {
                text_less_is_transitive(c, a, b);
            }
        }
    }
    assert forall|a: Seq<char>, b: Seq<char>| #[trigger] leq(a, b) || #[trigger] leq(b, a) by {
        if text_less(a, b) && text_less(b, a) {
            text_less_is_transitive(a, b, a);
            text_less_is_irreflexive(a);
        }
    }
}

/// The texts in ascending order.
pub open spec fn sorted_texts(texts: Seq<Seq<char>>) -> Seq<Seq<char>> {
    texts.sort_by(ascending())
}

/// Sorted texts ascend: no later one comes before an earlier one. They are the same texts, each as
/// often as before.
pub proof fn sorted_texts_are_ascending(texts: Seq<Seq<char>>)
    ensures
        sorted_texts(texts).len() == texts.len(),
        forall|i: int, j: int|
            0 <= i < j < texts.len() ==> !text_less(
                #[trigger] sorted_texts(texts)[j],
                #[trigger] sorted_texts(texts)[i],
            ),
        sorted_texts(texts).to_multiset() == texts.to_multiset(),
        forall|t: Seq<char>| #[trigger] sorted_texts(texts).contains(t) <==> texts.contains(t),
{
    let leq = ascending();
    let sorted = sorted_texts(texts);
    lemma_ascending_is_total();
    texts.lemma_sort_by_ensures(leq);
    vstd::seq_lib::to_multiset_len(texts);
    vstd::seq_lib::to_multiset_len(sorted);
    assert forall|i: int, j: int| 0 <= i < j < texts.len() implies !text_less(
        #[trigger] sorted[j],
        #[trigger] sorted[i],
    ) by {
        assert(leq(sorted[i], sorted[j]));
    }
    assert forall|t: Seq<char>| #[trigger] sorted.contains(t) <==> texts.contains(t) by {
        vstd::seq_lib::to_multiset_contains(texts, t);
        vstd::seq_lib::to_multiset_contains(sorted, t);
    }
}

/// Texts that ascend and are the same, each as often, are the sorted texts: there is only one way
/// to sort.
pub proof fn ascending_texts_are_the_sorted_texts(texts: Seq<Seq<char>>, other: Seq<Seq<char>>)
    requires
        other.to_multiset() == texts.to_multiset(),
        forall|i: int, j: int|
            0 <= i < j < other.len() ==> !text_less(#[trigger] other[j], #[trigger] other[i]),
    ensures
        other == sorted_texts(texts),
{
    let leq = ascending();
    lemma_ascending_is_total();
    texts.lemma_sort_by_ensures(leq);
    assert(vstd::relations::sorted_by(other, leq)) by {
        assert forall|i: int, j: int| 0 <= i < j < other.len() implies #[trigger] leq(
            other[i],
            other[j],
        ) by {
            assert(!text_less(other[j], other[i]));
        }
    }
    vstd::seq_lib::lemma_sorted_unique(other, sorted_texts(texts), leq);
}

/// The keys by which texts are sorted: the texts themselves.
spec fn text_keys(texts: Seq<Seq<char>>) -> Seq<SortKey<Seq<char>>> {
    texts.map_values(|t: Seq<char>| SortKey { name: t, number: 0 })
}

/// The texts at the given positions.
spec fn texts_at(texts: Seq<Seq<char>>, order: Seq<usize>) -> Seq<Seq<char>> {
    order.map_values(|position: usize| texts[position as int])
}

/// A sorted order has every position once.
pub proof fn lemma_every_place_once(keys: Seq<SortKey<Seq<char>>>, order: Seq<usize>)
    requires
        sorted_order(keys, order),
    ensures
        order.map_values(|position: usize| position as int).to_multiset() == Seq::new(
            keys.len(),
            |position: int| position,
        ).to_multiset(),
{
    broadcast use vstd::multiset::group_multiset_axioms;

    let places = order.map_values(|position: usize| position as int);
    let all = Seq::new(keys.len(), |position: int| position);
    sorted_order_is_a_permutation(keys, order);
    assert(places.no_duplicates());
    assert(all.no_duplicates());
    assert(places.to_multiset() == all.to_multiset()) by {
        places.lemma_multiset_has_no_duplicates();
        all.lemma_multiset_has_no_duplicates();
        assert forall|x: int| #[trigger] places.to_multiset().count(x) == all.to_multiset().count(
            x,
        ) by {
            vstd::seq_lib::to_multiset_contains(places, x);
            vstd::seq_lib::to_multiset_contains(all, x);
            if places.contains(x) {
                let i = choose|i: int| 0 <= i < places.len() && places[i] == x;
                assert(order[i] == x);
                assert(all[x] == x);
            }
            if all.contains(x) {
                lemma_occurs(keys, order, x);
                let i = choose|i: int| 0 <= i < order.len() && order[i] == x;
                assert(places[i] == x);
            }
        }
        assert(places.to_multiset() =~= all.to_multiset());
    }
}

/// Texts in sorted order are the sorted texts.
proof fn lemma_texts_in_order(texts: Seq<Seq<char>>, order: Seq<usize>)
    requires
        sorted_order(text_keys(texts), order),
    ensures
        texts_at(texts, order) == sorted_texts(texts),
{
    let keys = text_keys(texts);
    let sorted = texts_at(texts, order);
    let f = |position: int| texts[position];
    let places = order.map_values(|position: usize| position as int);
    let all = Seq::new(keys.len(), |position: int| position);
    lemma_every_place_once(keys, order);
    text::lemma_images(places, all, f);
    assert(places.map_values(f) =~= sorted);
    assert(all.map_values(f) =~= texts);
    assert forall|i: int, j: int| 0 <= i < j < sorted.len() implies !text_less(
        #[trigger] sorted[j],
        #[trigger] sorted[i],
    ) by {
        let a = order[i] as int;
        let b = order[j] as int;
        assert(placed_before(keys, a, b));
        if text_less(texts[b], texts[a]) {
            if text_less(texts[a], texts[b]) {
                text_less_is_transitive(texts[a], texts[b], texts[a]);
            }
            text_less_is_irreflexive(texts[a]);
        }
    }
    ascending_texts_are_the_sorted_texts(texts, sorted);
}

/// Sorts texts.
pub fn sort_texts(texts: &Vec<String>) -> (out: Vec<String>)
    ensures
        text::views(out@) == sorted_texts(text::views(texts@)),
{
    let ghost all = text::views(texts@);
    let ghost goal = text_keys(all);
    let mut keys: Vec<SortKey> = Vec::new();
    assert(text::views(keys@) =~= goal.take(0));
    for i in 0..texts.len()
        invariant
            all == text::views(texts@),
            goal == text_keys(all),
            text::views(keys@) == goal.take(i as int),
    {
        let key = SortKey { name: texts[i].clone(), number: 0 };
        proof {
            text::lemma_views_push(keys@, key);
            assert(goal.take(i + 1) =~= goal.take(i as int).push(key@));
        }
        keys.push(key);
    }
    assert(goal.take(texts@.len() as int) == goal);
    let order: Vec<usize> = stable_order(&keys);
    let ghost result = texts_at(all, order@);
    let mut out: Vec<String> = Vec::new();
    assert(text::views(out@) =~= result.take(0));
    for k in 0..order.len()
        invariant
            all == text::views(texts@),
            goal == text_keys(all),
            sorted_order(goal, order@),
            result == texts_at(all, order@),
            text::views(out@) == result.take(k as int),
    {
        let item: String = texts[order[k]].clone();
        proof {
            text::lemma_views_push(out@, item);
            assert(result.take(k + 1) =~= result.take(k as int).push(item@));
        }
        out.push(item);
    }
    assert(result.take(order@.len() as int) == result);
    proof {
        lemma_texts_in_order(all, order@);
    }
    out
}

/// Every field of a `SortKey` is seen under its own name.
pub proof fn every_field_of_sort_key_is_seen(it: SortKey)
    ensures
        it@.name == it.name@,
        it@.number == it.number,
{
}

} // verus!
