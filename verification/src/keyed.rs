//! Collections keyed by text: sets of texts and of rows of texts in order of arrival, and lists of
//! items under a key.

use crate::text;
use vstd::hash_map::StringHashMap;
use vstd::hash_set::StringHashSet;
use vstd::prelude::*;

verus! {

/// A list of items for each key; a key without items has the empty list.
pub struct KeyedLists<T> {
    index: StringHashMap<usize>,
    lists: Vec<Vec<T>>,
}

impl<T> KeyedLists<T> {
    /// Every key has a list of its own.
    pub closed spec fn wf(self) -> bool {
        &&& forall|k: Seq<char>| #[trigger]
            self.index@.contains_key(k) ==> self.index@[k] < self.lists@.len()
        &&& forall|j: Seq<char>, k: Seq<char>|
            self.index@.contains_key(j) && self.index@.contains_key(k) && j != k
                ==> #[trigger] self.index@[j] != #[trigger] self.index@[k]
    }

    /// The items under a key, in the order in which they were added.
    pub closed spec fn at(self, key: Seq<char>) -> Seq<T> {
        if self.index@.contains_key(key) {
            self.lists@[self.index@[key] as int]@
        } else {
            Seq::empty()
        }
    }

    /// No items at all.
    pub fn new() -> (r: Self)
        ensures
            r.wf(),
            forall|k: Seq<char>| #[trigger] r.at(k) == Seq::<T>::empty(),
    {
        KeyedLists { index: StringHashMap::new(), lists: Vec::new() }
    }

    /// Adds an item under a key.
    pub fn push(&mut self, key: &str, item: T)
        requires
            old(self).wf(),
        ensures
            final(self).wf(),
            final(self).at(key@) == old(self).at(key@).push(item),
            forall|k: Seq<char>| k != key@ ==> #[trigger] final(self).at(k) == old(self).at(k),
    {
        let found: Option<usize> = match self.index.get(key) {
            Some(position) => Some(*position),
            None => None,
        };
        match found {
            Some(position) => {
                self.lists[position].push(item);
            },
            None => {
                let position: usize = self.lists.len();
                let mut list: Vec<T> = Vec::new();
                list.push(item);
                self.lists.push(list);
                self.index.insert(text::copy(key), position);
                assert(self.at(key@) =~= old(self).at(key@).push(item));
            },
        }
    }

    /// The list under a key, if there is one.
    pub fn get(&self, key: &str) -> (r: Option<&Vec<T>>)
        requires
            self.wf(),
        ensures
            match r {
                Some(list) => list@ == self.at(key@),
                None => self.at(key@).len() == 0,
            },
    {
        match self.index.get(key) {
            Some(position) => Some(&self.lists[*position]),
            None => None,
        }
    }
}

/// A set of texts that remembers the order in which they arrived.
pub struct TextSet {
    members: StringHashSet,
    items: Vec<String>,
}

impl View for TextSet {
    type V = Seq<Seq<char>>;

    closed spec fn view(&self) -> Seq<Seq<char>> {
        text::views(self.items@)
    }
}

/// A sequence of distinct texts with one more, unless it is there already.
pub open spec fn with_text(s: Seq<Seq<char>>, t: Seq<char>) -> Seq<Seq<char>> {
    if s.contains(t) {
        s
    } else {
        s.push(t)
    }
}

/// The texts of `s`, each at the place where it occurs first.
pub open spec fn distinct(s: Seq<Seq<char>>) -> Seq<Seq<char>>
    decreases s.len(),
{
    if s.len() == 0 {
        seq![]
    } else {
        with_text(distinct(s.drop_last()), s.last())
    }
}

/// Keeping first occurrences loses no text and adds none, and leaves none twice.
pub proof fn lemma_distinct(s: Seq<Seq<char>>)
    ensures
        distinct(s).no_duplicates(),
        forall|t: Seq<char>| #[trigger] distinct(s).contains(t) <==> s.contains(t),
    decreases s.len(),
{
    if s.len() > 0 {
        let init = s.drop_last();
        lemma_distinct(init);
        let d = distinct(init);
        assert(init.push(s.last()) =~= s);
        assert forall|t: Seq<char>| #[trigger] distinct(s).contains(t) <==> s.contains(t) by {
            lemma_contains_push(init, s.last(), t);
            lemma_contains_push(d, s.last(), t);
            assert(d.contains(t) <==> init.contains(t));
            assert(d.contains(s.last()) <==> init.contains(s.last()));
        }
    }
}

/// First occurrences in a longer sequence.
pub proof fn lemma_distinct_push(s: Seq<Seq<char>>, t: Seq<char>)
    ensures
        distinct(s.push(t)) == with_text(distinct(s), t),
{
    assert(s.push(t).drop_last() =~= s);
}

impl TextSet {
    /// The items are distinct, and the set holds just them.
    pub closed spec fn wf(self) -> bool {
        &&& self@.no_duplicates()
        &&& forall|t: Seq<char>| #[trigger] self.members@.contains(t) <==> self@.contains(t)
    }

    /// The empty set.
    pub fn new() -> (r: Self)
        ensures
            r.wf(),
            r@ == Seq::<Seq<char>>::empty(),
    {
        let r = TextSet { members: StringHashSet::new(), items: Vec::new() };
        assert(r@ =~= Seq::<Seq<char>>::empty());
        r
    }

    /// The set of the given texts, each at its first place.
    pub fn from_texts(texts: &Vec<String>) -> (r: Self)
        ensures
            r.wf(),
            r@ == distinct(text::views(texts@)),
    {
        let mut r: TextSet = TextSet::new();
        let ghost all = text::views(texts@);
        assert(all.take(0).len() == 0);
        for i in 0..texts.len()
            invariant
                r.wf(),
                all == text::views(texts@),
                r@ == distinct(all.take(i as int)),
        {
            r.insert(texts[i].as_str());
            assert(all.take(i + 1).drop_last() == all.take(i as int));
        }
        assert(all.take(texts@.len() as int) == all);
        r
    }

    /// Adds a text; says whether it is new.
    pub fn insert(&mut self, t: &str) -> (added: bool)
        requires
            old(self).wf(),
        ensures
            final(self).wf(),
            final(self)@ == with_text(old(self)@, t@),
            added == !old(self)@.contains(t@),
    {
        if self.members.contains(t) {
            return false;
        }
        self.members.insert(text::copy(t));
        let item: String = text::copy(t);
        proof {
            text::lemma_views_push(self.items@, item);
        }
        self.items.push(item);
        proof {
            assert forall|x: Seq<char>| #[trigger] self.members@.contains(x) <==> self@.contains(
                x,
            ) by {
                lemma_contains_push(old(self)@, t@, x);
            }
        }
        true
    }

    /// Tests for a text.
    pub fn contains(&self, t: &str) -> (r: bool)
        requires
            self.wf(),
        ensures
            r == self@.contains(t@),
    {
        self.members.contains(t)
    }

    /// How many texts there are.
    pub fn len(&self) -> (n: usize)
        ensures
            n == self@.len(),
    {
        self.items.len()
    }

    /// The texts in the order in which they arrived.
    pub fn items(&self) -> (r: &Vec<String>)
        ensures
            text::views(r@) == self@,
    {
        &self.items
    }
}

/// The views of rows of texts.
pub open spec fn row_views(v: Seq<Vec<String>>) -> Seq<Seq<Seq<char>>> {
    v.map_values(|row: Vec<String>| text::views(row@))
}

/// Appending a row appends its view.
pub proof fn lemma_row_views_push(v: Seq<Vec<String>>, row: Vec<String>)
    ensures
        row_views(v.push(row)) == row_views(v).push(text::views(row@)),
{
    assert(row_views(v.push(row)) =~= row_views(v).push(text::views(row@)));
}

/// Tests two rows of texts for equality.
pub fn same_row(a: &Vec<String>, b: &Vec<String>) -> (r: bool)
    ensures
        r == (text::views(a@) == text::views(b@)),
{
    if a.len() != b.len() {
        assert(text::views(a@).len() != text::views(b@).len());
        return false;
    }
    for i in 0..a.len()
        invariant
            a@.len() == b@.len(),
            forall|k: int| 0 <= k < i ==> (#[trigger] a@[k])@ == b@[k]@,
    {
        if !text::same(a[i].as_str(), b[i].as_str()) {
            assert(text::views(a@)[i as int] != text::views(b@)[i as int]);
            return false;
        }
    }
    assert(text::views(a@) =~= text::views(b@));
    true
}

/// A set of rows of texts, such as the keys of a table, that remembers the order of arrival.
pub struct RowSet {
    index: KeyedLists<usize>,
    rows: Vec<Vec<String>>,
}

impl View for RowSet {
    type V = Seq<Seq<Seq<char>>>;

    closed spec fn view(&self) -> Seq<Seq<Seq<char>>> {
        row_views(self.rows@)
    }
}

/// A sequence of distinct rows with one more, unless it is there already.
pub open spec fn with_row(s: Seq<Seq<Seq<char>>>, row: Seq<Seq<char>>) -> Seq<Seq<Seq<char>>> {
    if s.contains(row) {
        s
    } else {
        s.push(row)
    }
}

/// The rows of `s`, each at the place where it occurs first.
pub open spec fn distinct_rows(s: Seq<Seq<Seq<char>>>) -> Seq<Seq<Seq<char>>>
    decreases s.len(),
{
    if s.len() == 0 {
        seq![]
    } else {
        with_row(distinct_rows(s.drop_last()), s.last())
    }
}

/// Keeping first occurrences loses no row and adds none, and leaves none twice.
pub proof fn lemma_distinct_rows(s: Seq<Seq<Seq<char>>>)
    ensures
        distinct_rows(s).no_duplicates(),
        forall|row: Seq<Seq<char>>| #[trigger] distinct_rows(s).contains(row) <==> s.contains(row),
    decreases s.len(),
{
    if s.len() > 0 {
        let init = s.drop_last();
        lemma_distinct_rows(init);
        let d = distinct_rows(init);
        assert(init.push(s.last()) =~= s);
        assert forall|row: Seq<Seq<char>>| #[trigger] distinct_rows(s).contains(row)
            <==> s.contains(row) by {
            lemma_contains_push(init, s.last(), row);
            lemma_contains_push(d, s.last(), row);
            assert(d.contains(row) <==> init.contains(row));
            assert(d.contains(s.last()) <==> init.contains(s.last()));
        }
    }
}

/// The text that a row is filed under: its texts with separators between.
pub open spec fn file_key(row: Seq<Seq<char>>) -> Seq<char>
    decreases row.len(),
{
    if row.len() == 0 {
        seq![]
    } else {
        file_key(row.drop_last()) + row.last() + seq!['\u{1F}']
    }
}

fn make_file_key(row: &Vec<String>) -> (key: String)
    ensures
        key@ == file_key(text::views(row@)),
{
    let ghost all = text::views(row@);
    let mut key: String = String::new();
    assert(key@ =~= file_key(all.take(0)));
    for i in 0..row.len()
        invariant
            all == text::views(row@),
            key@ == file_key(all.take(i as int)),
    {
        assert(all.take(i + 1).drop_last() == all.take(i as int));
        assert(all.take(i + 1).last() == row@[i as int]@);
        key.append(row[i].as_str());
        key.push('\u{1F}');
        assert(key@ =~= file_key(all.take(i + 1)));
    }
    assert(all.take(row@.len() as int) == all);
    key
}

impl RowSet {
    /// The rows are distinct, and each is filed under its key.
    pub closed spec fn wf(self) -> bool {
        &&& self@.no_duplicates()
        &&& self.index.wf()
        &&& forall|key: Seq<char>, k: int|
            0 <= k < self.index.at(key).len() ==> #[trigger] self.index.at(key)[k]
                < self.rows@.len()
        &&& forall|i: int|
            0 <= i < self.rows@.len() ==> self.index.at(file_key(self@[i])).contains(
                #[trigger] (i as usize),
            )
    }

    /// The empty set.
    pub fn new() -> (r: Self)
        ensures
            r.wf(),
            r@ == Seq::<Seq<Seq<char>>>::empty(),
    {
        let r = RowSet { index: KeyedLists::new(), rows: Vec::new() };
        assert(r@ =~= Seq::<Seq<Seq<char>>>::empty());
        r
    }

    /// The position at which a row arrived.
    pub fn find(&self, row: &Vec<String>) -> (r: Option<usize>)
        requires
            self.wf(),
        ensures
            match r {
                Some(i) => i < self@.len() && self@[i as int] == text::views(row@),
                None => !self@.contains(text::views(row@)),
            },
    {
        let ghost target = text::views(row@);
        let ghost key = file_key(target);
        let count: usize = self.rows.len();
        let file: String = make_file_key(row);
        match self.index.get(file.as_str()) {
            Some(positions) => {
                for k in 0..positions.len()
                    invariant
                        self.wf(),
                        count == self.rows@.len(),
                        target == text::views(row@),
                        key == file_key(target),
                        positions@ == self.index.at(key),
                        forall|m: int|
                            0 <= m < k ==> self@[(#[trigger] positions@[m]) as int] != target,
                {
                    assert(self.index.at(key)[k as int] < self.rows@.len());
                    let position: usize = positions[k];
                    assert(self@[position as int] == text::views(self.rows@[position as int]@));
                    if same_row(&self.rows[position], row) {
                        return Some(position);
                    }
                }
                proof {
                    if self@.contains(target) {
                        let i = choose|i: int| 0 <= i < self@.len() && self@[i] == target;
                        assert(i < count);
                        assert(self.index.at(file_key(self@[i])).contains(i as usize));
                        let m = choose|m: int|
                            0 <= m < positions@.len() && positions@[m] == i as usize;
                        assert(self@[positions@[m] as int] == target);
                    }
                }
                None
            },
            None => {
                proof {
                    if self@.contains(target) {
                        let i = choose|i: int| 0 <= i < self@.len() && self@[i] == target;
                        assert(self.index.at(file_key(self@[i])).contains(i as usize));
                    }
                }
                None
            },
        }
    }

    /// Tests for a row.
    pub fn contains(&self, row: &Vec<String>) -> (r: bool)
        requires
            self.wf(),
        ensures
            r == self@.contains(text::views(row@)),
    {
        self.find(row).is_some()
    }

    /// Adds a row; says whether it is new.
    pub fn insert(&mut self, row: Vec<String>) -> (added: bool)
        requires
            old(self).wf(),
        ensures
            final(self).wf(),
            final(self)@ == with_row(old(self)@, text::views(row@)),
            added == !old(self)@.contains(text::views(row@)),
    {
        if self.contains(&row) {
            return false;
        }
        let position: usize = self.rows.len();
        let key: String = make_file_key(&row);
        let ghost target = text::views(row@);
        self.index.push(key.as_str(), position);
        proof {
            lemma_row_views_push(self.rows@, row);
        }
        self.rows.push(row);
        proof {
            let before = old(self);
            assert(self@ == before@.push(target));
            assert forall|k: Seq<char>, m: int| 0 <= m < self.index.at(k).len() implies
                #[trigger] self.index.at(k)[m] < self.rows@.len() by {
                if k == key@ {
                    if m < before.index.at(k).len() {
                        assert(self.index.at(k)[m] == before.index.at(k)[m]);
                    }
                } else {
                    assert(self.index.at(k) == before.index.at(k));
                    assert(before.index.at(k)[m] < before.rows@.len());
                }
            }
            assert forall|i: int| 0 <= i < self.rows@.len() implies self.index.at(
                file_key(self@[i]),
            ).contains(#[trigger] (i as usize)) by {
                if i < position {
                    assert(self@[i] == before@[i]);
                    let f = file_key(before@[i]);
                    assert(before.index.at(f).contains(i as usize));
                    if f == key@ {
                        lemma_contains_push(before.index.at(f), position, i as usize);
                    } else {
                        assert(self.index.at(f) == before.index.at(f));
                    }
                } else {
                    lemma_contains_push(before.index.at(key@), position, position);
                }
            }
        }
        true
    }

    /// The rows in the order in which they arrived.
    pub fn rows(&self) -> (r: &Vec<Vec<String>>)
        ensures
            row_views(r@) == self@,
    {
        &self.rows
    }
}

/// What an appended item adds to membership.
pub proof fn lemma_contains_push<A>(s: Seq<A>, a: A, x: A)
    ensures
        s.push(a).contains(x) <==> s.contains(x) || x == a,
{
    if s.contains(x) {
        let k = choose|k: int| 0 <= k < s.len() && s[k] == x;
        assert(s.push(a)[k] == x);
    }
    assert(s.push(a)[s.len() as int] == a);
}

/// The choice of the positions with a key.
pub open spec fn position_chooser(key: Seq<Seq<char>>) -> spec_fn(int, Seq<Seq<char>>) -> Option<
    int,
> {
    |i: int, other: Seq<Seq<char>>|
        if other == key {
            Some(i)
        } else {
            None
        }
}

/// Positions as integers.
pub open spec fn positions(order: Seq<usize>) -> Seq<int> {
    order.map_values(|position: usize| position as int)
}

/// Of equal texts the first is kept, and what is kept stays in order.
pub proof fn the_first_of_equal_texts_is_kept_in_order(s: Seq<Seq<char>>, i: int, j: int)
    requires
        0 <= i < j < s.len(),
        forall|k: int| 0 <= k < i ==> #[trigger] s[k] != s[i],
        forall|k: int| 0 <= k < j ==> #[trigger] s[k] != s[j],
    ensures
        exists|p: int, q: int|
            0 <= p < q < distinct(s).len() && #[trigger] distinct(s)[p] == s[i]
                && #[trigger] distinct(s)[q] == s[j],
    decreases s.len(),
{
    let init = s.drop_last();
    let kept = distinct(init);
    if j < s.len() - 1 {
        assert(init[i] == s[i] && init[j] == s[j]);
        assert forall|k: int| 0 <= k < i implies #[trigger] init[k] != init[i] by {
            assert(init[k] == s[k]);
        }
        assert forall|k: int| 0 <= k < j implies #[trigger] init[k] != init[j] by {
            assert(init[k] == s[k]);
        }
        the_first_of_equal_texts_is_kept_in_order(init, i, j);
        let (p, q) = choose|p: int, q: int|
            0 <= p < q < kept.len() && #[trigger] kept[p] == init[i] && #[trigger] kept[q]
                == init[j];
        assert(distinct(s)[p] == s[i] && distinct(s)[q] == s[j]);
    } else {
        lemma_distinct(init);
        assert(init[i] == s[i]);
        assert(init.contains(s[i]));
        assert(kept.contains(s[i]));
        let p = choose|p: int| 0 <= p < kept.len() && kept[p] == s[i];
        if kept.contains(s[j]) {
            assert(init.contains(s[j]));
            let k = choose|k: int| 0 <= k < init.len() && init[k] == s[j];
            assert(s[k] == s[j]);
        }
        assert(distinct(s)[p] == s[i] && distinct(s)[kept.len() as int] == s[j]);
    }
}

/// Of equal rows the first is kept, and what is kept stays in order.
pub proof fn the_first_of_equal_rows_is_kept_in_order(s: Seq<Seq<Seq<char>>>, i: int, j: int)
    requires
        0 <= i < j < s.len(),
        forall|k: int| 0 <= k < i ==> #[trigger] s[k] != s[i],
        forall|k: int| 0 <= k < j ==> #[trigger] s[k] != s[j],
    ensures
        exists|p: int, q: int|
            0 <= p < q < distinct_rows(s).len() && #[trigger] distinct_rows(s)[p] == s[i]
                && #[trigger] distinct_rows(s)[q] == s[j],
    decreases s.len(),
{
    let init = s.drop_last();
    let kept = distinct_rows(init);
    if j < s.len() - 1 {
        assert(init[i] == s[i] && init[j] == s[j]);
        assert forall|k: int| 0 <= k < i implies #[trigger] init[k] != init[i] by {
            assert(init[k] == s[k]);
        }
        assert forall|k: int| 0 <= k < j implies #[trigger] init[k] != init[j] by {
            assert(init[k] == s[k]);
        }
        the_first_of_equal_rows_is_kept_in_order(init, i, j);
        let (p, q) = choose|p: int, q: int|
            0 <= p < q < kept.len() && #[trigger] kept[p] == init[i] && #[trigger] kept[q]
                == init[j];
        assert(distinct_rows(s)[p] == s[i] && distinct_rows(s)[q] == s[j]);
    } else {
        lemma_distinct_rows(init);
        assert(init[i] == s[i]);
        assert(init.contains(s[i]));
        assert(kept.contains(s[i]));
        let p = choose|p: int| 0 <= p < kept.len() && kept[p] == s[i];
        if kept.contains(s[j]) {
            assert(init.contains(s[j]));
            let k = choose|k: int| 0 <= k < init.len() && init[k] == s[j];
            assert(s[k] == s[j]);
        }
        assert(s.last() == s[j]);
        assert(distinct_rows(s) == kept.push(s[j]));
        assert(distinct_rows(s)[p] == s[i] && distinct_rows(s)[kept.len() as int] == s[j]);
    }
}

/// The positions of a key are those at which it stands, in ascending order.
pub proof fn the_positions_of_a_key_are_where_it_stands(
    keys: Seq<Seq<Seq<char>>>,
    key: Seq<Seq<char>>,
    i: int,
)
    ensures
        text::collect(keys, position_chooser(key)).contains(i) <==> 0 <= i < keys.len() && keys[i]
            == key,
        forall|p: int, q: int|
            0 <= p < q < text::collect(keys, position_chooser(key)).len() ==> #[trigger] text::collect(
                keys,
                position_chooser(key),
            )[p] < #[trigger] text::collect(keys, position_chooser(key))[q] < keys.len(),
    decreases keys.len(),
{
    let f = position_chooser(key);
    text::lemma_collect_contains(keys, f, i);
    if 0 <= i < keys.len() && keys[i] == key {
        assert(f(i, keys[i]) == Some(i));
    }
    if keys.len() > 0 {
        let init = keys.drop_last();
        let found = text::collect(init, f);
        assert forall|p: int| 0 <= p < found.len() implies #[trigger] found[p] < init.len() by {
            assert(found.contains(found[p]));
            the_positions_of_a_key_are_where_it_stands(init, key, found[p]);
        }
        the_positions_of_a_key_are_where_it_stands(init, key, i);
    }
}

} // verus!
