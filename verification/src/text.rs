//! Text primitives: blanks, trimming, splitting and joining over sequences of characters.

use vstd::prelude::*;
use vstd::std_specs::iter::IteratorSpec;

verus! {

/// `String::push` appends one character.
pub assume_specification[ String::push ](s: &mut String, c: char)
    ensures
        final(s)@ == old(s)@.push(c),
;

/// Which characters count as separating or surrounding blanks.
#[derive(Clone, Copy, PartialEq, Eq, Debug, Structural)]
pub enum Blank {
    /// The five ASCII blanks: tab, line feed, form feed, carriage return, space.
    Ascii,
    /// Every character with the Unicode property `White_Space`.
    Unicode,
    /// The blanks trimmed around CSV fields: space, tab, carriage return, line feed.
    Csv,
    /// Line terminators: carriage return and line feed.
    LineEnd,
}

/// Whether `c` is a blank of the given kind.
pub open spec fn blank(kind: Blank, c: char) -> bool {
    match kind {
        Blank::Ascii => c == '\t' || c == '\n' || c == '\x0C' || c == '\r' || c == ' ',
        Blank::Unicode => {
            ||| '\t' <= c <= '\r'
            ||| c == ' '
            ||| c == '\u{85}'
            ||| c == '\u{A0}'
            ||| c == '\u{1680}'
            ||| '\u{2000}' <= c <= '\u{200A}'
            ||| c == '\u{2028}'
            ||| c == '\u{2029}'
            ||| c == '\u{202F}'
            ||| c == '\u{205F}'
            ||| c == '\u{3000}'
        },
        Blank::Csv => c == ' ' || c == '\t' || c == '\r' || c == '\n',
        Blank::LineEnd => c == '\r' || c == '\n',
    }
}

/// Tests whether `c` is a blank of the given kind.
pub fn is_blank(kind: Blank, c: char) -> (r: bool)
    ensures
        r == blank(kind, c),
{
    match kind {
        Blank::Ascii => c == '\t' || c == '\n' || c == '\x0C' || c == '\r' || c == ' ',
        Blank::Unicode => ('\t' <= c && c <= '\r') || c == ' ' || c == '\u{85}' || c == '\u{A0}'
            || c == '\u{1680}' || ('\u{2000}' <= c && c <= '\u{200A}') || c == '\u{2028}' || c
            == '\u{2029}' || c == '\u{202F}' || c == '\u{205F}' || c == '\u{3000}',
        Blank::Csv => c == ' ' || c == '\t' || c == '\r' || c == '\n',
        Blank::LineEnd => c == '\r' || c == '\n',
    }
}

/// Tests two texts for equality.
pub fn same(a: &str, b: &str) -> (r: bool)
    ensures
        r == (a@ == b@),
{
    let mut left = a.chars();
    let mut right = b.chars();
    let ghost mut n: int = 0;
    loop
        invariant
            0 <= n <= a@.len(),
            n <= b@.len(),
            left.remaining() == a@.skip(n),
            right.remaining() == b@.skip(n),
            a@.take(n) == b@.take(n),
        decreases a@.len() - n,
    {
        match (left.next(), right.next()) {
            (None, None) => {
                assert(a@ == a@.take(n) && b@ == b@.take(n));
                return true;
            },
            (Some(x), Some(y)) => {
                assert(x == a@[n] && y == b@[n]);
                if x != y {
                    return false;
                }
                proof {
                    assert(a@.take(n + 1) == a@.take(n).push(x));
                    assert(b@.take(n + 1) == b@.take(n).push(x));
                    n = n + 1;
                }
            },
            (None, Some(_)) => {
                return false;
            },
            (Some(_), None) => {
                return false;
            },
        }
    }
}

/// The characters of a text.
pub fn chars_of(s: &str) -> (out: Vec<char>)
    ensures
        out@ == s@,
{
    let mut out: Vec<char> = Vec::new();
    for c in it: s.chars()
        invariant
            out@ == s@.take(it.index() as int),
            it.seq() == s@,
    {
        out.push(c);
    }
    out
}

/// The text made of the characters from `from` up to `to`.
pub fn text_of(s: &Vec<char>, from: usize, to: usize) -> (out: String)
    requires
        from <= to <= s@.len(),
    ensures
        out@ == s@.subrange(from as int, to as int),
{
    let mut out: String = String::new();
    let mut i: usize = from;
    while i < to
        invariant
            from <= i <= to <= s@.len(),
            out@ == s@.subrange(from as int, i as int),
        decreases to - i,
    {
        out.push(s[i]);
        i = i + 1;
    }
    out
}

/// Tests for the empty text.
pub fn is_empty(s: &str) -> (r: bool)
    ensures
        r == (s@.len() == 0),
{
    let mut chars = s.chars();
    match chars.next() {
        Some(_) => false,
        None => true,
    }
}

/// An owned copy of a text.
pub fn copy(s: &str) -> (out: String)
    ensures
        out@ == s@,
{
    s.to_owned()
}

/// `s` without its leading blanks.
pub open spec fn trim_start(kind: Blank, s: Seq<char>) -> Seq<char>
    decreases s.len(),
{
    if s.len() > 0 && blank(kind, s[0]) {
        trim_start(kind, s.skip(1))
    } else {
        s
    }
}

/// `s` without its trailing blanks.
pub open spec fn trim_end(kind: Blank, s: Seq<char>) -> Seq<char>
    decreases s.len(),
{
    if s.len() > 0 && blank(kind, s.last()) {
        trim_end(kind, s.drop_last())
    } else {
        s
    }
}

/// `s` without its leading and trailing blanks.
pub open spec fn trim(kind: Blank, s: Seq<char>) -> Seq<char> {
    trim_end(kind, trim_start(kind, s))
}

/// The bounds of the trimmed part of the range from `from` to `to`.
pub fn trim_bounds(kind: Blank, s: &Vec<char>, from: usize, to: usize) -> (r: (usize, usize))
    requires
        from <= to <= s@.len(),
    ensures
        from <= r.0 <= r.1 <= to,
        s@.subrange(r.0 as int, r.1 as int) == trim(kind, s@.subrange(from as int, to as int)),
{
    let mut start: usize = from;
    while start < to && is_blank(kind, s[start])
        invariant
            from <= start <= to <= s@.len(),
            trim_start(kind, s@.subrange(from as int, to as int)) == trim_start(
                kind,
                s@.subrange(start as int, to as int),
            ),
        decreases to - start,
    {
        assert(s@.subrange(start as int, to as int).skip(1) == s@.subrange(start + 1, to as int));
        start = start + 1;
    }
    let mut end: usize = to;
    while start < end && is_blank(kind, s[end - 1])
        invariant
            start <= end <= to <= s@.len(),
            trim_end(kind, s@.subrange(start as int, to as int)) == trim_end(
                kind,
                s@.subrange(start as int, end as int),
            ),
        decreases end - start,
    {
        assert(s@.subrange(start as int, end as int).drop_last() == s@.subrange(
            start as int,
            end - 1,
        ));
        end = end - 1;
    }
    (start, end)
}

/// A text without its leading and trailing blanks.
pub fn trimmed(kind: Blank, s: &str) -> (out: String)
    ensures
        out@ == trim(kind, s@),
{
    let cs: Vec<char> = chars_of(s);
    let (from, to) = trim_bounds(kind, &cs, 0, cs.len());
    assert(cs@.subrange(0, cs@.len() as int) == s@);
    text_of(&cs, from, to)
}

/// A text without its trailing blanks.
pub fn trimmed_end(kind: Blank, s: &str) -> (out: String)
    ensures
        out@ == trim_end(kind, s@),
{
    let cs: Vec<char> = chars_of(s);
    let mut end: usize = cs.len();
    assert(cs@.take(end as int) == s@);
    while end > 0 && is_blank(kind, cs[end - 1])
        invariant
            end <= cs@.len(),
            trim_end(kind, s@) == trim_end(kind, cs@.take(end as int)),
        decreases end,
    {
        assert(cs@.take(end as int).drop_last() == cs@.take(end - 1));
        end = end - 1;
    }
    assert(cs@.subrange(0, end as int) == cs@.take(end as int));
    text_of(&cs, 0, end)
}

/// The length of the leading run of characters that are not blank.
pub open spec fn word_len(kind: Blank, s: Seq<char>) -> int
    decreases s.len(),
{
    if s.len() > 0 && !blank(kind, s[0]) {
        1 + word_len(kind, s.skip(1))
    } else {
        0
    }
}

/// The maximal runs of characters that are not blank, in order.
pub open spec fn words(kind: Blank, s: Seq<char>) -> Seq<Seq<char>>
    decreases s.len(),
    via words_decreases
{
    let t = trim_start(kind, s);
    if t.len() == 0 {
        seq![]
    } else {
        seq![t.take(word_len(kind, t))] + words(kind, t.skip(word_len(kind, t)))
    }
}

#[via_fn]
proof fn words_decreases(kind: Blank, s: Seq<char>) {
    lemma_trim_start(kind, s);
    let t = trim_start(kind, s);
    lemma_word_len(kind, t);
}

/// Leading trimming leaves a suffix that starts with no blank.
pub proof fn lemma_trim_start(kind: Blank, s: Seq<char>)
    ensures
        trim_start(kind, s).len() <= s.len(),
        trim_start(kind, s) == s.skip(s.len() - trim_start(kind, s).len()),
        trim_start(kind, s).len() > 0 ==> !blank(kind, trim_start(kind, s)[0]),
    decreases s.len(),
{
    if s.len() > 0 && blank(kind, s[0]) {
        lemma_trim_start(kind, s.skip(1));
    }
}

proof fn lemma_word_len(kind: Blank, s: Seq<char>)
    ensures
        0 <= word_len(kind, s) <= s.len(),
        s.len() > 0 && !blank(kind, s[0]) ==> word_len(kind, s) >= 1,
    decreases s.len(),
{
    if s.len() > 0 && !blank(kind, s[0]) {
        lemma_word_len(kind, s.skip(1));
    }
}

/// The next word at or after `cursor`, which is left just behind that word.
pub fn next_word(kind: Blank, s: &Vec<char>, cursor: &mut usize) -> (r: Option<String>)
    requires
        *old(cursor) <= s@.len(),
    ensures
        *old(cursor) <= *final(cursor) <= s@.len(),
        match r {
            Some(word) => words(kind, s@.skip(*old(cursor) as int)) == seq![word@] + words(
                kind,
                s@.skip(*final(cursor) as int),
            ) && *old(cursor) < *final(cursor),
            None => words(kind, s@.skip(*old(cursor) as int)).len() == 0,
        },
{
    let ghost rest = s@.skip(*cursor as int);
    let mut start: usize = *cursor;
    while start < s.len() && is_blank(kind, s[start])
        invariant
            start <= s@.len(),
            *old(cursor) <= start,
            trim_start(kind, rest) == trim_start(kind, s@.skip(start as int)),
        decreases s@.len() - start,
    {
        assert(s@.skip(start as int).skip(1) == s@.skip(start + 1));
        start = start + 1;
    }
    let ghost t = s@.skip(start as int);
    assert(trim_start(kind, rest) == t);
    if start == s.len() {
        *cursor = start;
        return None;
    }
    let mut end: usize = start;
    assert(s@.skip(end as int) == t);
    while end < s.len() && !is_blank(kind, s[end])
        invariant
            start <= end <= s@.len(),
            word_len(kind, t) == (end - start) + word_len(kind, s@.skip(end as int)),
        decreases s@.len() - end,
    {
        assert(s@.skip(end as int).skip(1) == s@.skip(end + 1));
        end = end + 1;
    }
    assert(word_len(kind, t) == end - start);
    *cursor = end;
    assert(t.take(end - start) == s@.subrange(start as int, end as int));
    assert(t.skip(end - start) == s@.skip(end as int));
    proof {
        lemma_word_len(kind, t);
    }
    Some(text_of(s, start, end))
}

/// The views of the items of a list.
pub open spec fn views<A: View>(v: Seq<A>) -> Seq<A::V> {
    v.map_values(|a: A| a@)
}

/// Appending an item appends its view.
pub broadcast proof fn lemma_views_push<A: View>(v: Seq<A>, a: A)
    ensures
        #[trigger] views(v.push(a)) == views(v).push(a@),
{
    assert(views(v.push(a)) =~= views(v).push(a@));
}

/// The view of an optional item.
pub open spec fn opt<A: View>(o: Option<A>) -> Option<A::V> {
    match o {
        Some(a) => Some(a@),
        None => None,
    }
}

/// Sequences with the same members have the same images.
pub proof fn lemma_images<A, B>(a: Seq<A>, b: Seq<A>, f: spec_fn(A) -> B)
    requires
        a.to_multiset() == b.to_multiset(),
    ensures
        a.map_values(f).to_multiset() == b.map_values(f).to_multiset(),
    decreases a.len(),
{
    broadcast use vstd::multiset::group_multiset_axioms;

    vstd::seq_lib::to_multiset_len(a);
    vstd::seq_lib::to_multiset_len(b);
    if a.len() > 0 {
        let last = a.last();
        let init = a.drop_last();
        vstd::seq_lib::to_multiset_contains(a, last);
        vstd::seq_lib::to_multiset_contains(b, last);
        assert(a[a.len() - 1] == last);
        assert(a.contains(last));
        let k = choose|k: int| 0 <= k < b.len() && b[k] == last;
        let rest = b.remove(k);
        vstd::seq_lib::to_multiset_remove(b, k);
        vstd::seq_lib::to_multiset_remove(a, a.len() - 1);
        assert(a.remove(a.len() - 1) =~= init);
        lemma_images(init, rest, f);
        assert(a.map_values(f) =~= init.map_values(f).push(f(last)));
        vstd::seq_lib::to_multiset_build(init.map_values(f), f(last));
        assert(b.map_values(f).remove(k) =~= rest.map_values(f));
        vstd::seq_lib::to_multiset_remove(b.map_values(f), k);
        vstd::seq_lib::to_multiset_contains(b.map_values(f), f(last));
        assert(b.map_values(f)[k] == f(last));
        assert(b.map_values(f).contains(f(last)));
        assert(a.map_values(f).to_multiset() =~= b.map_values(f).to_multiset());
    } else {
        assert(a =~= b);
    }
}

/// The results of `f` on the items of `s`, each with its position, where there is one.
pub open spec fn collect<A, B>(s: Seq<A>, f: spec_fn(int, A) -> Option<B>) -> Seq<B>
    decreases s.len(),
{
    if s.len() == 0 {
        seq![]
    } else {
        let init = collect(s.drop_last(), f);
        match f(s.len() - 1, s.last()) {
            Some(b) => init.push(b),
            None => init,
        }
    }
}

/// Collecting one item more.
pub proof fn lemma_collect_step<A, B>(s: Seq<A>, f: spec_fn(int, A) -> Option<B>, i: int)
    requires
        0 <= i < s.len(),
    ensures
        collect(s.take(i + 1), f) == (match f(i, s[i]) {
            Some(b) => collect(s.take(i), f).push(b),
            None => collect(s.take(i), f),
        }),
{
    assert(s.take(i + 1).drop_last() == s.take(i));
}

/// The results of `f` on the items of `s`, each with its position, one behind the other.
pub open spec fn flat_collect<A, B>(s: Seq<A>, f: spec_fn(int, A) -> Seq<B>) -> Seq<B>
    decreases s.len(),
{
    if s.len() == 0 {
        seq![]
    } else {
        flat_collect(s.drop_last(), f) + f(s.len() - 1, s.last())
    }
}

/// Collecting the results on one item more.
pub proof fn lemma_flat_collect_step<A, B>(s: Seq<A>, f: spec_fn(int, A) -> Seq<B>, i: int)
    requires
        0 <= i < s.len(),
    ensures
        flat_collect(s.take(i + 1), f) == flat_collect(s.take(i), f) + f(i, s[i]),
{
    assert(s.take(i + 1).drop_last() == s.take(i));
}

/// What filtering keeps of an appended item.
pub proof fn lemma_filter_push<A>(s: Seq<A>, a: A, keep: spec_fn(A) -> bool)
    ensures
        s.push(a).filter(keep) == (if keep(a) {
            s.filter(keep).push(a)
        } else {
            s.filter(keep)
        }),
{
    reveal(Seq::filter);
    assert(s.push(a).drop_last() == s);
}

/// The words of a text.
pub fn split_words(kind: Blank, s: &Vec<char>) -> (out: Vec<String>)
    ensures
        views(out@) == words(kind, s@),
{
    let mut out: Vec<String> = Vec::new();
    let mut cursor: usize = 0;
    assert(s@.skip(0) == s@);
    assert(views(out@) + words(kind, s@) =~= words(kind, s@));
    loop
        invariant
            cursor <= s@.len(),
            views(out@) + words(kind, s@.skip(cursor as int)) == words(kind, s@),
        decreases s@.len() - cursor,
    {
        match next_word(kind, s, &mut cursor) {
            Some(word) => {
                proof {
                    lemma_views_push(out@, word);
                }
                let ghost before = views(out@);
                let ghost tail = words(kind, s@.skip(cursor as int));
                assert(before + (seq![word@] + tail) =~= before.push(word@) + tail);
                out.push(word);
            },
            None => {
                assert(views(out@) + Seq::<Seq<char>>::empty() =~= views(out@));
                return out;
            },
        }
    }
}

/// The position of the first `sep` in `s`, or its length where there is none.
pub open spec fn index_of(s: Seq<char>, sep: char) -> int
    decreases s.len(),
{
    if s.len() == 0 || s[0] == sep {
        0
    } else {
        1 + index_of(s.skip(1), sep)
    }
}

proof fn lemma_index_of(s: Seq<char>, sep: char)
    ensures
        0 <= index_of(s, sep) <= s.len(),
        index_of(s, sep) < s.len() ==> s[index_of(s, sep)] == sep,
    decreases s.len(),
{
    if s.len() > 0 && s[0] != sep {
        lemma_index_of(s.skip(1), sep);
    }
}

/// The pieces of `s` between separators; there is always at least one.
pub open spec fn split(s: Seq<char>, sep: char) -> Seq<Seq<char>>
    decreases s.len(),
    via split_decreases
{
    let n = index_of(s, sep);
    if n >= s.len() {
        seq![s]
    } else {
        seq![s.take(n)] + split(s.skip(n + 1), sep)
    }
}

#[via_fn]
proof fn split_decreases(s: Seq<char>, sep: char) {
    lemma_index_of(s, sep);
}

/// The bounds of the piece that starts at `start`: the position of the next separator.
pub fn find_char(s: &Vec<char>, start: usize, sep: char) -> (end: usize)
    requires
        start <= s@.len(),
    ensures
        start <= end <= s@.len(),
        end - start == index_of(s@.skip(start as int), sep),
{
    let mut end: usize = start;
    while end < s.len() && s[end] != sep
        invariant
            start <= end <= s@.len(),
            index_of(s@.skip(start as int), sep) == (end - start) + index_of(
                s@.skip(end as int),
                sep,
            ),
        decreases s@.len() - end,
    {
        assert(s@.skip(end as int).skip(1) == s@.skip(end + 1));
        end = end + 1;
    }
    end
}

/// The pieces of `s`, each without its surrounding blanks.
pub open spec fn trimmed_pieces(kind: Blank, s: Seq<char>, sep: char) -> Seq<Seq<char>> {
    split(s, sep).map_values(|piece: Seq<char>| trim(kind, piece))
}

/// Splits at each separator and trims every piece.
pub fn split_trimmed(kind: Blank, s: &Vec<char>, sep: char) -> (out: Vec<String>)
    ensures
        views(out@) == trimmed_pieces(kind, s@, sep),
{
    let mut out: Vec<String> = Vec::new();
    let mut start: usize = 0;
    let ghost f = |piece: Seq<char>| trim(kind, piece);
    assert(s@.skip(0) == s@);
    assert(views(out@) + trimmed_pieces(kind, s@, sep) =~= trimmed_pieces(kind, s@, sep));
    loop
        invariant
            start <= s@.len(),
            f == (|piece: Seq<char>| trim(kind, piece)),
            views(out@) + trimmed_pieces(kind, s@.skip(start as int), sep) == trimmed_pieces(
                kind,
                s@,
                sep,
            ),
        decreases s@.len() - start,
    {
        let end: usize = find_char(s, start, sep);
        let (from, to) = trim_bounds(kind, s, start, end);
        let piece: String = text_of(s, from, to);
        let ghost rest = s@.skip(start as int);
        assert(rest.take(end - start) == s@.subrange(start as int, end as int));
        let ghost before = views(out@);
        proof {
            lemma_views_push(out@, piece);
        }
        out.push(piece);
        if end == s.len() {
            assert(rest.take(end - start) == rest);
            assert(before + seq![rest].map_values(f) =~= before.push(piece@));
            return out;
        }
        proof {
            let tail = split(s@.skip(end + 1), sep);
            assert(rest.skip(end - start + 1) == s@.skip(end + 1));
            assert((seq![rest.take(end - start)] + tail).map_values(f) =~= seq![piece@]
                + tail.map_values(f));
            assert(before + (seq![piece@] + tail.map_values(f)) =~= before.push(piece@)
                + tail.map_values(f));
        }
        start = end + 1;
    }
}

/// Tests whether `s` starts with `prefix`.
pub fn has_prefix(s: &Vec<char>, prefix: &str) -> (r: bool)
    ensures
        r == prefix@.is_prefix_of(s@),
{
    let p: Vec<char> = chars_of(prefix);
    if p.len() > s.len() {
        return false;
    }
    let mut i: usize = 0;
    while i < p.len()
        invariant
            i <= p@.len() <= s@.len(),
            p@ == prefix@,
            forall|k: int| 0 <= k < i ==> p@[k] == s@[k],
        decreases p@.len() - i,
    {
        if p[i] != s[i] {
            assert(prefix@[i as int] != s@.subrange(0, prefix@.len() as int)[i as int]);
            return false;
        }
        i = i + 1;
    }
    assert(prefix@ =~= s@.subrange(0, prefix@.len() as int));
    true
}

/// The lines of a text: its pieces between line feeds, without an empty one behind the last.
pub open spec fn lines(s: Seq<char>) -> Seq<Seq<char>> {
    let pieces = split(s, '\n');
    if pieces.last().len() == 0 {
        pieces.drop_last()
    } else {
        pieces
    }
}

/// Splits at each separator.
pub fn split_at_char(s: &Vec<char>, sep: char) -> (out: Vec<String>)
    ensures
        views(out@) == split(s@, sep),
{
    let mut out: Vec<String> = Vec::new();
    let mut start: usize = 0;
    assert(s@.skip(0) == s@);
    assert(views(out@) + split(s@, sep) =~= split(s@, sep));
    loop
        invariant
            start <= s@.len(),
            views(out@) + split(s@.skip(start as int), sep) == split(s@, sep),
        decreases s@.len() - start,
    {
        let end: usize = find_char(s, start, sep);
        let piece: String = text_of(s, start, end);
        let ghost rest = s@.skip(start as int);
        assert(rest.take(end - start) == s@.subrange(start as int, end as int));
        let ghost before = views(out@);
        proof {
            lemma_views_push(out@, piece);
        }
        out.push(piece);
        if end == s.len() {
            assert(rest.take(end - start) == rest);
            assert(before + seq![rest] =~= before.push(piece@));
            return out;
        }
        proof {
            let tail = split(s@.skip(end + 1), sep);
            assert(rest.skip(end - start + 1) == s@.skip(end + 1));
            assert(before + (seq![piece@] + tail) =~= before.push(piece@) + tail);
        }
        start = end + 1;
    }
}

/// There is always at least one piece.
pub proof fn lemma_split_nonempty(s: Seq<char>, sep: char)
    ensures
        split(s, sep).len() > 0,
{
    lemma_index_of(s, sep);
}

/// Splits a text into its lines.
pub fn split_lines(s: &str) -> (out: Vec<String>)
    ensures
        views(out@) == lines(s@),
{
    let cs: Vec<char> = chars_of(s);
    let mut out: Vec<String> = split_at_char(&cs, '\n');
    proof {
        lemma_split_nonempty(s@, '\n');
    }
    let last: usize = out.len() - 1;
    assert(views(out@).last() == out@[last as int]@);
    if is_empty(out[last].as_str()) {
        let ghost all = out@;
        out.pop();
        assert(views(out@) =~= views(all).drop_last());
    }
    out
}

/// A copy of an optional text.
pub fn copy_opt(value: &Option<String>) -> (r: Option<String>)
    ensures
        opt(r) == opt(*value),
{
    match value {
        Some(found) => Some(found.clone()),
        None => None,
    }
}

/// Whether `needle` occurs in `s`.
pub open spec fn occurs(s: Seq<char>, needle: Seq<char>) -> bool {
    exists|i: int|
        0 <= i && i + needle.len() <= s.len() && #[trigger] s.subrange(i, i + needle.len())
            == needle
}

/// Tests whether a text occurs in another.
pub fn contains_text(s: &str, needle: &str) -> (r: bool)
    ensures
        r == occurs(s@, needle@),
{
    let cs: Vec<char> = chars_of(s);
    let n: Vec<char> = chars_of(needle);
    let total: usize = cs.len();
    let width: usize = n.len();
    if width > total {
        return false;
    }
    let last: usize = total - width;
    let mut i: usize = 0;
    loop
        invariant
            i <= last,
            last == total - width,
            cs@ == s@,
            n@ == needle@,
            total == cs@.len(),
            width == n@.len(),
            width <= total,
            forall|k: int|
                0 <= k < i ==> #[trigger] s@.subrange(k, k + needle@.len()) != needle@,
        decreases last - i,
    {
        let mut j: usize = 0;
        while j < width && cs[i + j] == n[j]
            invariant
                j <= width,
                i + width <= total,
                total == cs@.len(),
                width == n@.len(),
                forall|k: int| 0 <= k < j ==> cs@[i + k] == #[trigger] n@[k],
            decreases width - j,
        {
            j = j + 1;
        }
        if j == width {
            assert(s@.subrange(i as int, i + needle@.len()) =~= needle@);
            return true;
        }
        assert(s@.subrange(i as int, i + needle@.len())[j as int] != needle@[j as int]);
        if i == last {
            return false;
        }
        i = i + 1;
    }
}

/// How many bytes a character takes in UTF-8.
pub open spec fn utf8_len(c: char) -> int {
    if c <= '\u{7F}' {
        1
    } else if c <= '\u{7FF}' {
        2
    } else if c <= '\u{FFFF}' {
        3
    } else {
        4
    }
}

fn utf8_len_of(c: char) -> (n: usize)
    ensures
        n == utf8_len(c),
{
    if c <= '\u{7F}' {
        1
    } else if c <= '\u{7FF}' {
        2
    } else if c <= '\u{FFFF}' {
        3
    } else {
        4
    }
}

/// How many leading characters take just `n` bytes; none where `n` lies beyond the text or inside
/// a character.
pub open spec fn chars_in(s: Seq<char>, n: int) -> Option<int>
    decreases s.len(),
{
    if n == 0 {
        Some(0)
    } else if s.len() == 0 || n < utf8_len(s[0]) {
        None
    } else {
        match chars_in(s.skip(1), n - utf8_len(s[0])) {
            Some(k) => Some(k + 1),
            None => None,
        }
    }
}

/// Counts the leading characters that take just `n` bytes.
pub fn count_chars_in(s: &Vec<char>, n: usize) -> (r: Option<usize>)
    ensures
        match r {
            Some(k) => chars_in(s@, n as int) == Some(k as int) && k <= s@.len(),
            None => chars_in(s@, n as int) is None,
        },
{
    let mut left: usize = n;
    let mut i: usize = 0;
    assert(s@.skip(0) == s@);
    while left > 0
        invariant
            i <= s@.len(),
            chars_in(s@, n as int) == (match chars_in(s@.skip(i as int), left as int) {
                Some(k) => Some(k + i),
                None => None,
            }),
        decreases left,
    {
        if i == s.len() {
            return None;
        }
        let width: usize = utf8_len_of(s[i]);
        if left < width {
            return None;
        }
        assert(s@.skip(i as int).skip(1) == s@.skip(i + 1));
        left = left - width;
        i = i + 1;
    }
    Some(i)
}

/// The part of a text between two byte positions; none where one of them lies beyond the text or
/// inside a character, or where they are reversed.
pub open spec fn byte_slice(s: Seq<char>, from: int, to: int) -> Option<Seq<char>> {
    match (chars_in(s, from), chars_in(s, to)) {
        (Some(start), Some(end)) => if start <= end {
            Some(s.subrange(start, end))
        } else {
            None
        },
        _ => None,
    }
}

/// Cuts the part between two byte positions out of a text.
pub fn slice_bytes(s: &str, from: usize, to: usize) -> (r: Option<String>)
    ensures
        opt(r) == byte_slice(s@, from as int, to as int),
{
    let cs: Vec<char> = chars_of(s);
    match (count_chars_in(&cs, from), count_chars_in(&cs, to)) {
        (Some(start), Some(end)) => if start <= end {
            Some(text_of(&cs, start, end))
        } else {
            None
        },
        _ => None,
    }
}

/// Tests whether a text starts with another.
pub fn starts_with(s: &str, prefix: &str) -> (r: bool)
    ensures
        r == prefix@.is_prefix_of(s@),
{
    let cs: Vec<char> = chars_of(s);
    has_prefix(&cs, prefix)
}

/// Whether `s` ends with `suffix`.
pub open spec fn ends(s: Seq<char>, suffix: Seq<char>) -> bool {
    suffix.len() <= s.len() && s.skip(s.len() - suffix.len()) == suffix
}

/// Tests whether a text ends with another.
pub fn ends_with(s: &str, suffix: &str) -> (r: bool)
    ensures
        r == ends(s@, suffix@),
{
    let cs: Vec<char> = chars_of(s);
    let tail: Vec<char> = chars_of(suffix);
    if tail.len() > cs.len() {
        return false;
    }
    let total: usize = cs.len();
    let width: usize = tail.len();
    let from: usize = total - width;
    let mut i: usize = 0;
    while i < width
        invariant
            i <= width,
            width == tail@.len(),
            cs@ == s@,
            tail@ == suffix@,
            from + width == total,
            total == cs@.len(),
            forall|k: int| 0 <= k < i ==> cs@[from + k] == #[trigger] tail@[k],
        decreases width - i,
    {
        if cs[from + i] != tail[i] {
            assert(s@.skip(from as int)[i as int] != suffix@[i as int]);
            return false;
        }
        i = i + 1;
    }
    assert(s@.skip(from as int) =~= suffix@);
    true
}

/// How many bytes a text takes in UTF-8.
pub open spec fn byte_len(s: Seq<char>) -> int
    decreases s.len(),
{
    if s.len() == 0 {
        0
    } else {
        utf8_len(s[0]) + byte_len(s.skip(1))
    }
}

proof fn lemma_byte_len(s: Seq<char>)
    ensures
        byte_len(s) >= 0,
    decreases s.len(),
{
    if s.len() > 0 {
        lemma_byte_len(s.skip(1));
    }
}

/// Tests whether a text takes at most `n` bytes in UTF-8.
pub fn fits_in_bytes(s: &str, n: usize) -> (r: bool)
    ensures
        r == (byte_len(s@) <= n),
{
    let cs: Vec<char> = chars_of(s);
    let mut left: usize = n;
    assert(cs@.skip(0) == s@);
    for i in 0..cs.len()
        invariant
            cs@ == s@,
            left <= n,
            byte_len(s@) == (n - left) + byte_len(cs@.skip(i as int)),
    {
        let width: usize = utf8_len_of(cs[i]);
        assert(cs@.skip(i as int).skip(1) == cs@.skip(i + 1));
        if width > left {
            proof {
                lemma_byte_len(cs@.skip(i + 1));
            }
            return false;
        }
        left = left - width;
    }
    assert(cs@.skip(cs@.len() as int).len() == 0);
    true
}

/// A line without the carriage return before its end.
pub open spec fn without_return(line: Seq<char>) -> Seq<char> {
    if line.len() > 0 && line.last() == '\r' {
        line.drop_last()
    } else {
        line
    }
}

/// The lines of a text whose line feeds may have carriage returns before them.
pub open spec fn text_lines(s: Seq<char>) -> Seq<Seq<char>> {
    let pieces = split(s, '\n');
    let ended = pieces.drop_last().map_values(|line: Seq<char>| without_return(line));
    if pieces.last().len() == 0 {
        ended
    } else {
        ended.push(pieces.last())
    }
}

fn remove_return(line: &str) -> (r: String)
    ensures
        r@ == without_return(line@),
{
    let cs: Vec<char> = chars_of(line);
    let count: usize = cs.len();
    if count > 0 && cs[count - 1] == '\r' {
        assert(cs@.subrange(0, count - 1) =~= line@.drop_last());
        text_of(&cs, 0, count - 1)
    } else {
        copy(line)
    }
}

/// Splits a text into its lines, with or without carriage returns before the line feeds.
pub fn split_text_lines(s: &str) -> (out: Vec<String>)
    ensures
        views(out@) == text_lines(s@),
{
    let cs: Vec<char> = chars_of(s);
    let pieces: Vec<String> = split_at_char(&cs, '\n');
    let ghost all = split(s@, '\n');
    proof {
        lemma_split_nonempty(s@, '\n');
    }
    let last: usize = pieces.len() - 1;
    let ghost ended = all.drop_last().map_values(|line: Seq<char>| without_return(line));
    let mut out: Vec<String> = Vec::new();
    assert(views(out@) =~= ended.take(0));
    for i in 0..last
        invariant
            views(pieces@) == all,
            last == pieces@.len() - 1,
            ended == all.drop_last().map_values(|line: Seq<char>| without_return(line)),
            views(out@) == ended.take(i as int),
    {
        let line: String = remove_return(pieces[i].as_str());
        proof {
            assert(all[i as int] == pieces@[i as int]@);
            lemma_views_push(out@, line);
            assert(ended.take(i + 1) =~= ended.take(i as int).push(line@));
        }
        out.push(line);
    }
    assert(ended.take(last as int) == ended);
    assert(all.last() == pieces@[last as int]@);
    if !is_empty(pieces[last].as_str()) {
        let line: String = pieces[last].clone();
        proof {
            lemma_views_push(out@, line);
        }
        out.push(line);
    }
    out
}

/// What is collected comes from the items, and whatever they give is collected.
pub proof fn lemma_collect_contains<A, B>(s: Seq<A>, f: spec_fn(int, A) -> Option<B>, b: B)
    ensures
        collect(s, f).contains(b) <==> exists|i: int|
            0 <= i < s.len() && f(i, #[trigger] s[i]) == Some(b),
    decreases s.len(),
{
    if s.len() > 0 {
        let init = s.drop_last();
        let last = s.len() - 1;
        lemma_collect_contains(init, f, b);
        if collect(s, f).contains(b) {
            let k = choose|k: int| 0 <= k < collect(s, f).len() && collect(s, f)[k] == b;
            if k < collect(init, f).len() {
                assert(collect(init, f)[k] == b);
                let i = choose|i: int| 0 <= i < init.len() && f(i, #[trigger] init[i]) == Some(b);
                assert(s[i] == init[i]);
            } else {
                assert(f(last, s[last]) == Some(b));
            }
        }
        if exists|i: int| 0 <= i < s.len() && f(i, #[trigger] s[i]) == Some(b) {
            let i = choose|i: int| 0 <= i < s.len() && f(i, #[trigger] s[i]) == Some(b);
            if i < last {
                assert(init[i] == s[i]);
                let k = choose|k: int| 0 <= k < collect(init, f).len() && collect(init, f)[k] == b;
                assert(collect(s, f)[k] == b);
            } else {
                assert(collect(s, f)[collect(s, f).len() - 1] == b);
            }
        }
    }
}

/// Trimming takes blanks away at both ends and nothing else.
pub proof fn trimming_takes_blanks_from_both_ends(kind: Blank, s: Seq<char>)
    ensures
        exists|i: int, j: int|
            {
                &&& 0 <= i <= j <= s.len()
                &&& trim(kind, s) == #[trigger] s.subrange(i, j)
                &&& forall|k: int| (0 <= k < i || j <= k < s.len()) ==> blank(kind, s[k])
            },
        trim(kind, s).len() > 0 ==> !blank(kind, trim(kind, s)[0]) && !blank(
            kind,
            trim(kind, s).last(),
        ),
{
    let t = trim_start(kind, s);
    let i = s.len() - t.len();
    lemma_trim_start(kind, s);
    lemma_trimmed_start_is_blank(kind, s);
    lemma_trim_end(kind, t);
    let j = i + trim(kind, s).len();
    assert(trim(kind, s) =~= s.subrange(i, j));
    assert forall|k: int| (0 <= k < i || j <= k < s.len()) implies blank(kind, s[k]) by {
        if j <= k {
            assert(t[k - i] == s[k]);
        }
    }
}

proof fn lemma_trimmed_start_is_blank(kind: Blank, s: Seq<char>)
    ensures
        forall|k: int| 0 <= k < s.len() - trim_start(kind, s).len() ==> blank(kind, #[trigger] s[k]),
    decreases s.len(),
{
    if s.len() > 0 && blank(kind, s[0]) {
        lemma_trimmed_start_is_blank(kind, s.skip(1));
        assert forall|k: int| 0 <= k < s.len() - trim_start(kind, s).len() implies blank(
            kind,
            #[trigger] s[k],
        ) by {
            if k > 0 {
                assert(s.skip(1)[k - 1] == s[k]);
            }
        }
    }
}

proof fn lemma_trim_end(kind: Blank, s: Seq<char>)
    ensures
        trim_end(kind, s).len() <= s.len(),
        trim_end(kind, s) == s.take(trim_end(kind, s).len() as int),
        forall|k: int| trim_end(kind, s).len() <= k < s.len() ==> blank(kind, #[trigger] s[k]),
        trim_end(kind, s).len() > 0 ==> !blank(kind, trim_end(kind, s).last()),
    decreases s.len(),
{
    if s.len() > 0 && blank(kind, s.last()) {
        let init = s.drop_last();
        lemma_trim_end(kind, init);
        assert(trim_end(kind, s) =~= s.take(trim_end(kind, s).len() as int));
        assert forall|k: int| trim_end(kind, s).len() <= k < s.len() implies blank(
            kind,
            #[trigger] s[k],
        ) by {
            if k < s.len() - 1 {
                assert(init[k] == s[k]);
            }
        }
    } else {
        assert(s =~= s.take(s.len() as int));
    }
}

/// A text without blanks at its ends stays as it is.
pub proof fn trimming_keeps_what_is_trimmed(kind: Blank, s: Seq<char>)
    requires
        s.len() > 0 ==> !blank(kind, s[0]) && !blank(kind, s.last()),
    ensures
        trim(kind, s) == s,
{
}

/// Between ASCII characters, bytes are counted like characters.
pub proof fn ascii_slices_count_characters(s: Seq<char>, from: int, to: int)
    requires
        forall|i: int| 0 <= i < s.len() ==> (#[trigger] s[i]) <= '\u{7F}',
        0 <= from <= to,
    ensures
        byte_slice(s, from, to) == (if to <= s.len() {
            Some(s.subrange(from, to))
        } else {
            None
        }),
{
    lemma_ascii_chars_in(s, from);
    lemma_ascii_chars_in(s, to);
}

/// Characters of one byte are counted like bytes.
pub proof fn lemma_ascii_chars_in(s: Seq<char>, n: int)
    requires
        forall|i: int| 0 <= i < s.len() ==> (#[trigger] s[i]) <= '\u{7F}',
        0 <= n,
    ensures
        chars_in(s, n) == (if n <= s.len() {
            Some(n)
        } else {
            None
        }),
    decreases s.len(),
{
    if n > 0 && s.len() > 0 {
        let rest = s.skip(1);
        assert forall|i: int| 0 <= i < rest.len() implies (#[trigger] rest[i]) <= '\u{7F}' by {
            assert(rest[i] == s[i + 1]);
        }
        assert(s[0] <= '\u{7F}');
        lemma_ascii_chars_in(rest, n - 1);
    }
}

/// Splitting loses nothing: the pieces with the separator between them are the text, and no piece
/// holds the separator.
pub proof fn splitting_is_undone_by_joining(s: Seq<char>, sep: char)
    ensures
        split(s, sep).len() > 0,
        joined_by(split(s, sep), sep) == s,
        forall|i: int|
            0 <= i < split(s, sep).len() ==> !(#[trigger] split(s, sep)[i]).contains(sep),
    decreases s.len(),
{
    lemma_index_of(s, sep);
    let n = index_of(s, sep);
    if n >= s.len() {
        assert(!s.contains(sep)) by {
            if s.contains(sep) {
                let k = choose|k: int| 0 <= k < s.len() && s[k] == sep;
                lemma_before_index(s, sep, k);
            }
        }
        assert(split(s, sep) =~= seq![s]);
        assert(joined_by(seq![s], sep) == s);
    } else {
        let rest = s.skip(n + 1);
        splitting_is_undone_by_joining(rest, sep);
        let pieces = split(s, sep);
        assert(pieces[0] == s.take(n));
        assert(pieces.skip(1) =~= split(rest, sep));
        assert(!s.take(n).contains(sep)) by {
            if s.take(n).contains(sep) {
                let k = choose|k: int| 0 <= k < n && s.take(n)[k] == sep;
                lemma_before_index(s, sep, k);
            }
        }
        assert forall|i: int| 0 <= i < pieces.len() implies !(#[trigger] pieces[i]).contains(
            sep,
        ) by {
            if i > 0 {
                assert(pieces[i] == split(rest, sep)[i - 1]);
            }
        }
        assert(s[n] == sep);
        assert(s =~= s.take(n) + seq![sep] + rest);
    }
}

/// Pieces with a separator between them.
pub open spec fn joined_by(pieces: Seq<Seq<char>>, sep: char) -> Seq<char>
    decreases pieces.len(),
{
    if pieces.len() == 0 {
        seq![]
    } else if pieces.len() == 1 {
        pieces[0]
    } else {
        pieces[0] + seq![sep] + joined_by(pieces.skip(1), sep)
    }
}

proof fn lemma_before_index(s: Seq<char>, sep: char, k: int)
    requires
        0 <= k < s.len(),
        s[k] == sep,
    ensures
        index_of(s, sep) <= k,
    decreases s.len(),
{
    if s[0] != sep {
        assert(s.skip(1)[k - 1] == sep);
        lemma_before_index(s.skip(1), sep, k - 1);
    }
}

/// Where every item gives one thing, the things stand in the order of the items.
pub proof fn lemma_flat_singles<A, B>(s: Seq<A>, f: spec_fn(int, A) -> Seq<B>, i: int)
    requires
        0 <= i < s.len(),
        forall|j: int| 0 <= j < s.len() ==> f(j, #[trigger] s[j]).len() == 1,
    ensures
        flat_collect(s, f).len() == s.len(),
        flat_collect(s, f)[i] == f(i, s[i])[0],
    decreases s.len(),
{
    let init = s.drop_last();
    assert forall|j: int| 0 <= j < init.len() implies f(j, #[trigger] init[j]).len() == 1 by {
        assert(init[j] == s[j]);
    }
    assert(f(s.len() - 1, s[s.len() - 1]).len() == 1);
    if init.len() == 0 {
        assert(flat_collect(init, f).len() == 0);
    } else {
        lemma_flat_singles(init, f, 0);
    }
    if i < init.len() {
        lemma_flat_singles(init, f, i);
        assert(init[i] == s[i]);
    }
}

/// The first separator stands behind what holds none.
pub proof fn lemma_index_behind(front: Seq<char>, rest: Seq<char>, sep: char)
    requires
        !front.contains(sep),
    ensures
        index_of(front + seq![sep] + rest, sep) == front.len(),
    decreases front.len(),
{
    let s = front + seq![sep] + rest;
    if front.len() > 0 {
        assert(s[0] == front[0]);
        assert(front.contains(front[0]));
        let tail = front.skip(1);
        assert(!tail.contains(sep)) by {
            if tail.contains(sep) {
                let k = choose|k: int| 0 <= k < tail.len() && tail[k] == sep;
                assert(front[k + 1] == sep);
            }
        }
        assert(s.skip(1) =~= tail + seq![sep] + rest);
        lemma_index_behind(tail, rest, sep);
    } else {
        assert(s[0] == sep);
    }
}

/// Characters of one byte are as many bytes.
pub proof fn lemma_ascii_byte_len(s: Seq<char>)
    requires
        forall|i: int| 0 <= i < s.len() ==> (#[trigger] s[i]) <= '\u{7F}',
    ensures
        byte_len(s) == s.len(),
    decreases s.len(),
{
    if s.len() > 0 {
        assert(s[0] <= '\u{7F}');
        assert forall|i: int| 0 <= i < s.skip(1).len() implies (#[trigger] s.skip(1)[i])
            <= '\u{7F}' by {
            assert(s.skip(1)[i] == s[i + 1]);
        }
        lemma_ascii_byte_len(s.skip(1));
    }
}

/// A word is what stands before the first blank; the words of the rest follow it.
pub proof fn words_stand_between_blanks(kind: Blank, word: Seq<char>, c: char, rest: Seq<char>)
    requires
        word.len() > 0,
        forall|i: int| 0 <= i < word.len() ==> !blank(kind, #[trigger] word[i]),
        blank(kind, c),
    ensures
        words(kind, word + seq![c] + rest) == seq![word] + words(kind, rest),
        words(kind, word) == seq![word],
        words(kind, seq![c] + rest) == words(kind, rest),
        words(kind, Seq::empty()) == Seq::<Seq<char>>::empty(),
{
    let s = word + seq![c] + rest;
    assert(s[0] == word[0]);
    assert(trim_start(kind, s) == s);
    lemma_word_before(kind, word, seq![c] + rest);
    assert(s =~= word + (seq![c] + rest));
    assert(s.take(word.len() as int) =~= word);
    assert(s.skip(word.len() as int) =~= seq![c] + rest);
    assert((seq![c] + rest).skip(1) =~= rest);
    assert(trim_start(kind, seq![c] + rest) == trim_start(kind, rest));
    assert(words(kind, seq![c] + rest) == words(kind, rest));
    assert(words(kind, s) =~= seq![word] + words(kind, rest));
    lemma_word_before(kind, word, Seq::empty());
    assert(word + Seq::<char>::empty() =~= word);
    assert(trim_start(kind, word) == word);
    assert(word.take(word.len() as int) =~= word);
    assert(word.skip(word.len() as int) =~= Seq::<char>::empty());
    assert(words(kind, Seq::<char>::empty()) =~= Seq::<Seq<char>>::empty());
    assert(words(kind, word) =~= seq![word]);
}

proof fn lemma_word_before(kind: Blank, word: Seq<char>, rest: Seq<char>)
    requires
        forall|i: int| 0 <= i < word.len() ==> !blank(kind, #[trigger] word[i]),
        rest.len() > 0 ==> blank(kind, rest[0]),
    ensures
        word_len(kind, word + rest) == word.len(),
    decreases word.len(),
{
    let s = word + rest;
    if word.len() > 0 {
        assert(s[0] == word[0]);
        assert(s.skip(1) =~= word.skip(1) + rest);
        assert forall|i: int| 0 <= i < word.skip(1).len() implies !blank(
            kind,
            #[trigger] word.skip(1)[i],
        ) by {
            assert(word.skip(1)[i] == word[i + 1]);
        }
        lemma_word_before(kind, word.skip(1), rest);
    } else if s.len() > 0 {
        assert(s[0] == rest[0]);
    }
}

/// A line ends at a line feed, before which one carriage return is dropped; a last line that is
/// empty is none.
pub proof fn lines_end_at_line_feeds(line: Seq<char>, rest: Seq<char>)
    requires
        !line.contains('\n'),
    ensures
        line.len() > 0 ==> text_lines(line) == seq![line],
        text_lines(Seq::empty()).len() == 0,
        line.len() == 0 || line.last() != '\r' ==> text_lines(line + seq!['\n'] + rest) == seq![line]
            + text_lines(rest),
        text_lines(line + seq!['\r'] + seq!['\n'] + rest) == seq![line] + text_lines(rest),
{
    lemma_whole_line(line);
    lemma_whole_line(Seq::empty());
    lemma_line_step(line, rest);
    let returned = line + seq!['\r'];
    assert(!returned.contains('\n')) by {
        if returned.contains('\n') {
            let k = choose|k: int| 0 <= k < returned.len() && returned[k] == '\n';
            if k < line.len() {
                assert(line[k] == '\n');
            }
        }
    }
    lemma_line_step(returned, rest);
    assert(returned.drop_last() =~= line);
}

proof fn lemma_whole_line(line: Seq<char>)
    requires
        !line.contains('\n'),
    ensures
        split(line, '\n') == seq![line],
        text_lines(line) == (if line.len() > 0 {
            seq![line]
        } else {
            seq![]
        }),
{
    lemma_index_behind(line, Seq::empty(), '\n');
    lemma_index_of(line, '\n');
    let n = index_of(line, '\n');
    if n < line.len() {
        assert(line.contains(line[n]));
    }
    assert(split(line, '\n') =~= seq![line]);
    assert(seq![line].drop_last() =~= seq![]);
}

proof fn lemma_line_step(line: Seq<char>, rest: Seq<char>)
    requires
        !line.contains('\n'),
    ensures
        text_lines(line + seq!['\n'] + rest) == seq![without_return(line)] + text_lines(rest),
{
    let s = line + seq!['\n'] + rest;
    lemma_index_behind(line, rest, '\n');
    lemma_split_nonempty(rest, '\n');
    assert(s.take(line.len() as int) =~= line);
    assert(s.skip(line.len() as int + 1) =~= rest);
    let pieces = split(rest, '\n');
    let all = split(s, '\n');
    assert(all == seq![line] + pieces);
    assert(all.last() == pieces.last());
    assert(all.drop_last() =~= seq![line] + pieces.drop_last());
    assert(text_lines(s) =~= seq![without_return(line)] + text_lines(rest));
}

/// Characters take one to four bytes.
pub proof fn characters_take_one_to_four_bytes(c: char)
    ensures
        utf8_len(c) == 1 <==> (c as int) < 128,
        utf8_len(c) == 2 <==> 128 <= (c as int) < 2048,
        utf8_len(c) == 3 <==> 2048 <= (c as int) < 65536,
        utf8_len(c) == 4 <==> 65536 <= (c as int),
        byte_len(seq![c]) == utf8_len(c),
{
    assert(seq![c].skip(1).len() == 0);
    assert(byte_len(seq![c].skip(1)) == 0);
}

} // verus!
