//! SQL text and the bookkeeping of one-time database work.

use crate::keyed;
use crate::keyed::KeyedLists;
use crate::text;
use vstd::prelude::*;

verus! {

/// The most variables that one statement may bind.
pub const SQLITE_MAX_VARIABLE_NUMBER: usize = 999;

/// `s` with every quotation mark doubled.
pub open spec fn doubled_quotes(s: Seq<char>) -> Seq<char>
    decreases s.len(),
{
    if s.len() == 0 {
        seq![]
    } else if s.last() == '"' {
        doubled_quotes(s.drop_last()).push('"').push('"')
    } else {
        doubled_quotes(s.drop_last()).push(s.last())
    }
}

/// An identifier in quotation marks, those within doubled.
pub open spec fn quoted_identifier(identifier: Seq<char>) -> Seq<char> {
    seq!['"'] + doubled_quotes(identifier) + seq!['"']
}

/// Quotes an identifier for use in a statement.
pub fn quote_sqlite_identifier(identifier: &str) -> (out: String)
    ensures
        out@ == quoted_identifier(identifier@),
{
    let cs: Vec<char> = text::chars_of(identifier);
    let mut out: String = String::new();
    out.push('"');
    assert(cs@.take(0).len() == 0);
    assert(out@ =~= seq!['"'] + doubled_quotes(cs@.take(0)));
    for i in 0..cs.len()
        invariant
            cs@ == identifier@,
            out@ == seq!['"'] + doubled_quotes(cs@.take(i as int)),
    {
        assert(cs@.take(i + 1).drop_last() == cs@.take(i as int));
        let c: char = cs[i];
        if c == '"' {
            out.push('"');
        }
        out.push(c);
        assert(out@ =~= seq!['"'] + doubled_quotes(cs@.take(i + 1)));
    }
    assert(cs@.take(cs@.len() as int) == identifier@);
    out.push('"');
    out
}

/// What quoted text stands for: the text between the outer quotation marks, with each pair of
/// quotation marks read as one.
pub open spec fn undoubled_quotes(s: Seq<char>) -> Seq<char>
    decreases s.len(),
{
    if s.len() == 0 {
        seq![]
    } else if s.len() >= 2 && s.last() == '"' && s[s.len() - 2] == '"' {
        undoubled_quotes(s.drop_last().drop_last()).push('"')
    } else {
        undoubled_quotes(s.drop_last()).push(s.last())
    }
}

proof fn lemma_undoubled(s: Seq<char>)
    ensures
        undoubled_quotes(doubled_quotes(s)) == s,
    decreases s.len(),
{
    if s.len() > 0 {
        let init = s.drop_last();
        lemma_undoubled(init);
        let d = doubled_quotes(init);
        if s.last() == '"' {
            let q = d.push('"').push('"');
            assert(q.drop_last().drop_last() =~= d);
        } else {
            assert(d.push(s.last()).drop_last() =~= d);
        }
        assert(init.push(s.last()) =~= s);
    } else {
        assert(s =~= seq![]);
    }
}

/// A quoted identifier reads back as the identifier, whatever characters it holds.
pub proof fn quoting_is_undone(identifier: Seq<char>)
    ensures
        ({
            let quoted = quoted_identifier(identifier);
            &&& quoted.len() >= 2
            &&& quoted[0] == '"'
            &&& quoted.last() == '"'
            &&& undoubled_quotes(quoted.subrange(1, quoted.len() - 1)) == identifier
        }),
{
    lemma_undoubled(identifier);
    let quoted = quoted_identifier(identifier);
    assert(quoted.subrange(1, quoted.len() - 1) =~= doubled_quotes(identifier));
}

/// Two identifiers that are quoted alike are the same.
pub proof fn quoting_is_injective(a: Seq<char>, b: Seq<char>)
    requires
        quoted_identifier(a) == quoted_identifier(b),
    ensures
        a == b,
{
    quoting_is_undone(a);
    quoting_is_undone(b);
}

/// `item` written `n` times with `separator` between.
pub open spec fn repeated(item: Seq<char>, separator: Seq<char>, n: nat) -> Seq<char>
    decreases n,
{
    if n == 0 {
        seq![]
    } else if n == 1 {
        item
    } else {
        repeated(item, separator, (n - 1) as nat) + separator + item
    }
}

/// Writes an item several times with a separator between.
pub fn repeat_text(item: &str, separator: &str, n: usize) -> (out: String)
    ensures
        out@ == repeated(item@, separator@, n as nat),
{
    let mut out: String = String::new();
    for i in 0..n
        invariant
            out@ == repeated(item@, separator@, i as nat),
    {
        if i > 0 {
            out.append(separator);
        }
        out.append(item);
        assert(out@ =~= repeated(item@, separator@, (i + 1) as nat));
    }
    out
}

/// The texts one behind the other with `separator` between.
pub open spec fn joined(parts: Seq<Seq<char>>, separator: Seq<char>) -> Seq<char>
    decreases parts.len(),
{
    if parts.len() == 0 {
        seq![]
    } else if parts.len() == 1 {
        parts[0]
    } else {
        joined(parts.drop_last(), separator) + separator + parts.last()
    }
}

/// Joins texts with a separator.
pub fn join_texts(parts: &Vec<String>, separator: &str) -> (out: String)
    ensures
        out@ == joined(text::views(parts@), separator@),
{
    let ghost all = text::views(parts@);
    let mut out: String = String::new();
    assert(all.take(0).len() == 0);
    for i in 0..parts.len()
        invariant
            all == text::views(parts@),
            out@ == joined(all.take(i as int), separator@),
    {
        let ghost next = all.take(i + 1);
        assert(next.drop_last() == all.take(i as int));
        assert(next.last() == parts@[i as int]@);
        if i > 0 {
            out.append(separator);
        }
        out.append(parts[i].as_str());
        assert(out@ =~= joined(next, separator@));
    }
    assert(all.take(parts@.len() as int) == all);
    out
}

/// The variables of a list: `n` question marks.
pub open spec fn placeholders(n: nat) -> Seq<char> {
    repeated("?"@, ", "@, n)
}

/// The items cut into runs of at most `size`, from the front.
pub open spec fn chunks<A>(items: Seq<A>, size: int) -> Seq<Seq<A>>
    decreases items.len(),
{
    if size <= 0 || items.len() == 0 {
        seq![]
    } else if items.len() <= size {
        seq![items]
    } else {
        seq![items.take(size)] + chunks(items.skip(size), size)
    }
}

/// The views of lists of texts.
pub open spec fn list_views(v: Seq<Vec<String>>) -> Seq<Seq<Seq<char>>> {
    v.map_values(|list: Vec<String>| text::views(list@))
}

fn copy_range(items: &Vec<String>, from: usize, to: usize) -> (out: Vec<String>)
    requires
        from <= to <= items@.len(),
    ensures
        text::views(out@) == text::views(items@).subrange(from as int, to as int),
{
    let ghost all = text::views(items@);
    let mut out: Vec<String> = Vec::new();
    for i in from..to
        invariant
            from <= to <= items@.len(),
            all == text::views(items@),
            text::views(out@) =~= all.subrange(from as int, i as int),
    {
        let item: String = items[i].clone();
        proof {
            text::lemma_views_push(out@, item);
        }
        out.push(item);
    }
    out
}

/// Cuts a list into runs of at most `size`.
pub fn chunk_texts(items: &Vec<String>, size: usize) -> (out: Vec<Vec<String>>)
    requires
        size > 0,
    ensures
        list_views(out@) == chunks(text::views(items@), size as int),
{
    let ghost all = text::views(items@);
    let count: usize = items.len();
    let mut out: Vec<Vec<String>> = Vec::new();
    let mut start: usize = 0;
    assert(all.skip(0) == all);
    assert(list_views(out@) + chunks(all, size as int) =~= chunks(all, size as int));
    while start < count
        invariant
            size > 0,
            start <= count,
            count == items@.len(),
            all == text::views(items@),
            list_views(out@) + chunks(all.skip(start as int), size as int) == chunks(
                all,
                size as int,
            ),
        decreases count - start,
    {
        let end: usize = if count - start <= size {
            count
        } else {
            start + size
        };
        let run: Vec<String> = copy_range(items, start, end);
        proof {
            let before = list_views(out@);
            let rest = all.skip(start as int);
            let tail = chunks(all.skip(end as int), size as int);
            if rest.len() <= size {
                assert(text::views(run@) == rest);
                assert(tail =~= seq![]);
                assert(chunks(rest, size as int) =~= seq![text::views(run@)] + tail);
            } else {
                assert(text::views(run@) == rest.take(size as int));
                assert(rest.skip(size as int) == all.skip(end as int));
            }
            assert(list_views(out@.push(run)) =~= before.push(text::views(run@)));
            assert(before + (seq![text::views(run@)] + tail) =~= before.push(text::views(run@))
                + tail);
        }
        out.push(run);
        start = end;
    }
    assert(chunks(all.skip(start as int), size as int) =~= seq![]);
    assert(list_views(out@) + Seq::<Seq<Seq<char>>>::empty() =~= list_views(out@));
    out
}

/// The contents of runs.
pub open spec fn run_views<A>(v: Seq<Vec<A>>) -> Seq<Seq<A>> {
    v.map_values(|run: Vec<A>| run@)
}

/// Cuts items into runs of at most `size`.
pub fn cut_runs<A>(items: Vec<A>, size: usize) -> (out: Vec<Vec<A>>)
    requires
        size > 0,
    ensures
        run_views(out@) == chunks(items@, size as int),
{
    let ghost goal = chunks(items@, size as int);
    let mut rest: Vec<A> = items;
    let mut out: Vec<Vec<A>> = Vec::new();
    assert(run_views(out@) + goal =~= goal);
    while rest.len() > size
        invariant
            size > 0,
            run_views(out@) + chunks(rest@, size as int) == goal,
        decreases rest@.len(),
    {
        let ghost all = rest@;
        let tail: Vec<A> = rest.split_off(size);
        proof {
            assert(rest@ =~= all.take(size as int));
            assert(tail@ =~= all.skip(size as int));
            assert(run_views(out@.push(rest)) =~= run_views(out@).push(rest@));
            assert(run_views(out@) + (seq![rest@] + chunks(tail@, size as int)) =~= run_views(
                out@,
            ).push(rest@) + chunks(tail@, size as int));
        }
        out.push(rest);
        rest = tail;
    }
    if rest.len() > 0 {
        assert(run_views(out@.push(rest)) =~= run_views(out@) + seq![rest@]);
        out.push(rest);
    } else {
        assert(run_views(out@) + Seq::<Seq<A>>::empty() =~= run_views(out@));
    }
    out
}

/// Cutting and then mapping each item is the same as mapping and then cutting.
pub proof fn lemma_chunks_map<A, B>(items: Seq<A>, f: spec_fn(A) -> B, size: int)
    ensures
        chunks(items.map_values(f), size) == chunks(items, size).map_values(
            |run: Seq<A>| run.map_values(f),
        ),
    decreases items.len(),
{
    let g = |run: Seq<A>| run.map_values(f);
    if size > 0 && items.len() > size {
        lemma_chunks_map(items.skip(size), f, size);
        assert(items.map_values(f).take(size) =~= items.take(size).map_values(f));
        assert(items.map_values(f).skip(size) =~= items.skip(size).map_values(f));
    }
    assert(chunks(items.map_values(f), size) =~= chunks(items, size).map_values(g));
}

proof fn lemma_chunks_first<A>(items: Seq<A>, size: int)
    requires
        size > 0,
        items.len() > 0,
    ensures
        chunks(items, size).len() > 0,
        0 < chunks(items, size)[0].len() <= size,
        chunks(items, size)[0] == items.take(chunks(items, size)[0].len() as int),
        chunks(items, size).skip(1) == chunks(
            items.skip(chunks(items, size)[0].len() as int),
            size,
        ),
{
    let all = chunks(items, size);
    if items.len() <= size {
        assert(items.take(items.len() as int) =~= items);
        assert(all.skip(1) =~= seq![]);
    } else {
        assert(all.skip(1) =~= chunks(items.skip(size), size));
    }
}

/// Cutting loses nothing: the runs one behind the other are the items, and no run is empty or
/// longer than allowed.
pub proof fn chunks_cover_the_items<A>(items: Seq<A>, size: int)
    requires
        size > 0,
    ensures
        chunks(items, size).flatten() == items,
        forall|i: int|
            0 <= i < chunks(items, size).len() ==> 0 < #[trigger] chunks(items, size)[i].len()
                <= size,
    decreases items.len(),
{
    let all = chunks(items, size);
    if items.len() > 0 {
        lemma_chunks_first(items, size);
        let n = all[0].len() as int;
        let rest = items.skip(n);
        chunks_cover_the_items(rest, size);
        assert(all.drop_first() =~= all.skip(1));
        assert(all.flatten() == all.first() + all.drop_first().flatten());
        assert(items.take(n) + rest =~= items);
        assert forall|i: int| 0 <= i < all.len() implies 0 < #[trigger] all[i].len() <= size by {
            if i > 0 {
                assert(all[i] == chunks(rest, size)[i - 1]);
            }
        }
    } else {
        assert(all.flatten() =~= items);
    }
}

/// What is written and what is held back, group by group: the rows held back are written, in runs
/// of at most `limit`, as soon as there are that many.
pub open spec fn flushed<R>(groups: Seq<Seq<R>>, limit: int) -> (Seq<Seq<R>>, Seq<R>)
    decreases groups.len(),
{
    if groups.len() == 0 {
        (seq![], seq![])
    } else {
        let (done, pending) = flushed(groups.drop_last(), limit);
        let rows = pending + groups.last();
        if rows.len() >= limit {
            (done + chunks(rows, limit), seq![])
        } else {
            (done, rows)
        }
    }
}

/// The runs in which the rows of all groups are written, the last ones at the end.
pub open spec fn batches<R>(groups: Seq<Seq<R>>, limit: int) -> Seq<Seq<R>> {
    flushed(groups, limit).0 + chunks(flushed(groups, limit).1, limit)
}

proof fn lemma_flushed<R>(groups: Seq<Seq<R>>, limit: int)
    requires
        limit > 0,
    ensures
        flushed(groups, limit).0.flatten() + flushed(groups, limit).1 == groups.flatten(),
        forall|i: int|
            0 <= i < flushed(groups, limit).0.len() ==> 0 < #[trigger] flushed(
                groups,
                limit,
            ).0[i].len() <= limit,
    decreases groups.len(),
{
    let (done, pending) = flushed(groups, limit);
    if groups.len() == 0 {
        assert(done.flatten() + pending =~= groups.flatten());
    } else {
        let init = groups.drop_last();
        lemma_flushed(init, limit);
        let (before, held) = flushed(init, limit);
        let rows = held + groups.last();
        assert(init.push(groups.last()) =~= groups);
        lemma_flatten_push(init, groups.last());
        assert(before.flatten() + held + groups.last() =~= before.flatten() + rows);
        if rows.len() >= limit {
            chunks_cover_the_items(rows, limit);
            lemma_flatten_concat(before, chunks(rows, limit));
            assert(done.flatten() + pending =~= groups.flatten());
            assert forall|i: int| 0 <= i < done.len() implies 0 < #[trigger] done[i].len()
                <= limit by {
                if i < before.len() {
                    assert(done[i] == before[i]);
                } else {
                    assert(done[i] == chunks(rows, limit)[i - before.len()]);
                }
            }
        }
    }
}

proof fn lemma_flatten_push<R>(lists: Seq<Seq<R>>, list: Seq<R>)
    ensures
        lists.push(list).flatten() == lists.flatten() + list,
{
    lemma_flatten_concat(lists, seq![list]);
    assert(lists + seq![list] =~= lists.push(list));
    assert(seq![list].drop_first() =~= seq![]);
    assert(seq![list].flatten() == list + seq![list].drop_first().flatten());
    assert(seq![list].flatten() =~= list);
}

proof fn lemma_flatten_concat<R>(a: Seq<Seq<R>>, b: Seq<Seq<R>>)
    ensures
        (a + b).flatten() == a.flatten() + b.flatten(),
    decreases a.len(),
{
    if a.len() == 0 {
        assert(a + b =~= b);
        assert(a.flatten() + b.flatten() =~= b.flatten());
    } else {
        lemma_flatten_concat(a.drop_first(), b);
        assert((a + b).drop_first() =~= a.drop_first() + b);
        assert((a + b).first() == a.first());
        assert(a.flatten() + b.flatten() =~= a.first() + (a.drop_first().flatten() + b.flatten()));
    }
}

/// Writing in runs loses no row and changes no order, and no run is empty or longer than allowed.
pub proof fn batches_hold_every_row<R>(groups: Seq<Seq<R>>, limit: int)
    requires
        limit > 0,
    ensures
        batches(groups, limit).flatten() == groups.flatten(),
        forall|i: int|
            0 <= i < batches(groups, limit).len() ==> 0 < #[trigger] batches(
                groups,
                limit,
            )[i].len() <= limit,
{
    lemma_flushed(groups, limit);
    let (done, pending) = flushed(groups, limit);
    chunks_cover_the_items(pending, limit);
    lemma_flatten_concat(done, chunks(pending, limit));
    let all = batches(groups, limit);
    assert forall|i: int| 0 <= i < all.len() implies 0 < #[trigger] all[i].len() <= limit by {
        if i < done.len() {
            assert(all[i] == done[i]);
        } else {
            assert(all[i] == chunks(pending, limit)[i - done.len()]);
        }
    }
}

/// How many rows of `width` values one query asks for: as many as wanted, at least one, and no
/// more than the variables of a statement allow.
pub open spec fn batch_limit(wanted: int, width: int) -> int {
    let most = SQLITE_MAX_VARIABLE_NUMBER as int / width;
    if wanted < 1 {
        1
    } else if wanted > most {
        most
    } else {
        wanted
    }
}

/// How many pairs of values one query asks for.
pub fn pair_query_batch_size(batch_size: usize) -> (r: usize)
    ensures
        r == batch_limit(batch_size as int, 2),
{
    if batch_size < 1 {
        1
    } else if batch_size > SQLITE_MAX_VARIABLE_NUMBER / 2 {
        SQLITE_MAX_VARIABLE_NUMBER / 2
    } else {
        batch_size
    }
}

/// How many triples of values one query asks for.
pub fn triple_query_batch_size(batch_size: usize) -> (r: usize)
    ensures
        r == batch_limit(batch_size as int, 3),
{
    if batch_size < 1 {
        1
    } else if batch_size > SQLITE_MAX_VARIABLE_NUMBER / 3 {
        SQLITE_MAX_VARIABLE_NUMBER / 3
    } else {
        batch_size
    }
}

/// A query never binds more variables than a statement allows, and always asks for something.
pub proof fn batches_bind_few_variables(wanted: int, width: int)
    requires
        1 <= width <= SQLITE_MAX_VARIABLE_NUMBER,
    ensures
        1 <= batch_limit(wanted, width),
        batch_limit(wanted, width) * width <= SQLITE_MAX_VARIABLE_NUMBER,
{
    let n = SQLITE_MAX_VARIABLE_NUMBER as int;
    let most = n / width;
    assert(most >= 1 && most * width <= n) by (nonlinear_arith)
        requires
            1 <= width <= n,
            most == n / width,
    ;
    let b = batch_limit(wanted, width);
    assert(b * width <= most * width) by (nonlinear_arith)
        requires
            b <= most,
            width >= 1,
    ;
}

/// A query with the values that it binds.
#[verifier::ext_equal]
pub struct BoundQuery<T = String, L = Vec<String>> {
    pub sql: T,
    pub parameters: L,
}

impl View for BoundQuery {
    type V = BoundQuery<Seq<char>, Seq<Seq<char>>>;

    open spec fn view(&self) -> Self::V {
        BoundQuery { sql: self.sql@, parameters: text::views(self.parameters@) }
    }
}

/// The values of a row, as they are.
pub open spec fn row_values() -> spec_fn(int, Seq<Seq<char>>) -> Seq<Seq<char>> {
    |i: int, row: Seq<Seq<char>>| row
}

/// The query for one run of rows: the start of the text, a group of variables for each row, and
/// the closing bracket.
pub open spec fn row_query(head: Seq<char>, group: Seq<char>, run: Seq<Seq<Seq<char>>>) -> BoundQuery<
    Seq<char>,
    Seq<Seq<char>>,
> {
    BoundQuery {
        sql: head + repeated(group, ","@, run.len()) + ")"@,
        parameters: text::flat_collect(run, row_values()),
    }
}

/// The queries for rows of values, cut into runs.
pub open spec fn row_queries(
    head: Seq<char>,
    group: Seq<char>,
    rows: Seq<Seq<Seq<char>>>,
    size: int,
) -> Seq<BoundQuery<Seq<char>, Seq<Seq<char>>>> {
    chunks(rows, size).map_values(|run: Seq<Seq<Seq<char>>>| row_query(head, group, run))
}

fn make_row_query(head: &str, group: &str, rows: &Vec<Vec<String>>, from: usize, to: usize) -> (r:
    BoundQuery)
    requires
        from <= to <= rows@.len(),
    ensures
        r@ == row_query(
            head@,
            group@,
            keyed::row_views(rows@).subrange(from as int, to as int),
        ),
{
    let ghost run = keyed::row_views(rows@).subrange(from as int, to as int);
    let ghost f = row_values();
    let mut sql: String = text::copy(head);
    let groups: String = repeat_text(group, ",", to - from);
    sql.append(groups.as_str());
    sql.append(")");
    let mut parameters: Vec<String> = Vec::new();
    assert(run.take(0).len() == 0);
    assert(text::views(parameters@) =~= text::flat_collect(run.take(0), f));
    for i in from..to
        invariant
            from <= to <= rows@.len(),
            run == keyed::row_views(rows@).subrange(from as int, to as int),
            f == row_values(),
            text::views(parameters@) == text::flat_collect(run.take(i - from), f),
    {
        let ghost before = text::views(parameters@);
        let ghost values = text::views(rows@[i as int]@);
        proof {
            text::lemma_flat_collect_step(run, f, i - from);
            assert(run[i - from] == values);
        }
        assert(before =~= before + values.take(0));
        let width: usize = rows[i].len();
        for j in 0..width
            invariant
                from <= i < to <= rows@.len(),
                width == rows@[i as int]@.len(),
                values == text::views(rows@[i as int]@),
                text::views(parameters@) == before + values.take(j as int),
        {
            let value: String = rows[i][j].clone();
            proof {
                text::lemma_views_push(parameters@, value);
                assert((before + values.take(j as int)).push(value@) =~= before + values.take(
                    j + 1,
                ));
            }
            parameters.push(value);
        }
        assert(values.take(values.len() as int) == values);
    }
    assert(run.take(to - from) == run);
    BoundQuery { sql, parameters }
}

/// Builds the queries for rows of values.
pub fn list_row_queries(head: &str, group: &str, rows: &Vec<Vec<String>>, size: usize) -> (out: Vec<
    BoundQuery,
>)
    requires
        size > 0,
    ensures
        text::views(out@) == row_queries(
            head@,
            group@,
            keyed::row_views(rows@),
            size as int,
        ),
{
    let ghost all = keyed::row_views(rows@);
    let ghost f = |run: Seq<Seq<Seq<char>>>| row_query(head@, group@, run);
    let ghost goal = row_queries(head@, group@, all, size as int);
    let count: usize = rows.len();
    let mut out: Vec<BoundQuery> = Vec::new();
    let mut start: usize = 0;
    assert(all.skip(0) == all);
    assert(text::views(out@) + goal =~= goal);
    while start < count
        invariant
            size > 0,
            start <= count,
            count == rows@.len(),
            all == keyed::row_views(rows@),
            f == (|run: Seq<Seq<Seq<char>>>| row_query(head@, group@, run)),
            text::views(out@) + chunks(all.skip(start as int), size as int).map_values(f) == goal,
        decreases count - start,
    {
        let end: usize = if count - start <= size {
            count
        } else {
            start + size
        };
        let query: BoundQuery = make_row_query(head, group, rows, start, end);
        proof {
            let before = text::views(out@);
            let rest = all.skip(start as int);
            let run = all.subrange(start as int, end as int);
            let tail = chunks(all.skip(end as int), size as int);
            if rest.len() <= size {
                assert(run == rest);
                assert(tail =~= seq![]);
                assert(chunks(rest, size as int) =~= seq![run] + tail);
            } else {
                assert(run == rest.take(size as int));
                assert(rest.skip(size as int) == all.skip(end as int));
            }
            assert((seq![run] + tail).map_values(f) =~= seq![query@] + tail.map_values(f));
            text::lemma_views_push(out@, query);
            assert(before + (seq![query@] + tail.map_values(f)) =~= before.push(query@)
                + tail.map_values(f));
        }
        out.push(query);
        start = end;
    }
    assert(chunks(all.skip(start as int), size as int).map_values(f) =~= seq![]);
    assert(text::views(out@) =~= goal);
    out
}

/// The identifiers in quotation marks with commas between.
pub open spec fn quoted_list(identifiers: Seq<Seq<char>>) -> Seq<char> {
    joined(identifiers.map_values(|name: Seq<char>| quoted_identifier(name)), ", "@)
}

/// Quotes identifiers and joins them with commas.
pub fn join_quoted_sqlite_identifiers(identifiers: &Vec<String>) -> (r: String)
    ensures
        r@ == quoted_list(text::views(identifiers@)),
{
    let ghost goal = text::views(identifiers@).map_values(
        |name: Seq<char>| quoted_identifier(name),
    );
    let mut quoted: Vec<String> = Vec::new();
    assert(text::views(quoted@) =~= goal.take(0));
    for i in 0..identifiers.len()
        invariant
            goal == text::views(identifiers@).map_values(
                |name: Seq<char>| quoted_identifier(name),
            ),
            text::views(quoted@) == goal.take(i as int),
    {
        let name: String = quote_sqlite_identifier(identifiers[i].as_str());
        proof {
            text::lemma_views_push(quoted@, name);
            assert(goal.take(i + 1) =~= goal.take(i as int).push(name@));
        }
        quoted.push(name);
    }
    assert(goal.take(identifiers@.len() as int) == goal);
    join_texts(&quoted, ", ")
}

/// The statement that inserts a row with the given columns, unless it is there already.
pub open spec fn insert_statement(table: Seq<char>, columns: Seq<Seq<char>>) -> Seq<char> {
    "INSERT OR IGNORE INTO "@ + quoted_identifier(table) + " ("@ + quoted_list(columns)
        + ") VALUES ("@ + placeholders(columns.len()) + ")"@
}

/// Builds the statement that inserts a row with the given columns.
pub fn build_insert_sql(table: &str, columns: &Vec<String>) -> (sql: String)
    ensures
        sql@ == insert_statement(table@, text::views(columns@)),
{
    let mut sql: String = text::copy("INSERT OR IGNORE INTO ");
    let name: String = quote_sqlite_identifier(table);
    sql.append(name.as_str());
    sql.append(" (");
    let list: String = join_quoted_sqlite_identifiers(columns);
    sql.append(list.as_str());
    sql.append(") VALUES (");
    let variables: String = repeat_text("?", ", ", columns.len());
    sql.append(variables.as_str());
    sql.append(")");
    sql
}

/// A value that is bound to a column.
#[derive(Debug)]
pub enum Cell<T = String> {
    /// No value.
    Null,
    /// A text.
    Text(T),
    /// A real number as a checked literal.
    Literal(T),
    /// A real number as a bit pattern.
    Bits(u64),
    /// An integer.
    Integer(i64),
    /// A checked literal, divided.
    Quotient(T, u32),
    /// A checked literal in hundredths, rounded to tenths.
    Tenths(T),
    /// A whole number times a negative power of ten: the number and the exponent.
    Scaled(u32, u32),
}

impl View for Cell {
    type V = Cell<Seq<char>>;

    open spec fn view(&self) -> Self::V {
        match self {
            Cell::Null => Cell::Null,
            Cell::Text(value) => Cell::Text(value@),
            Cell::Literal(value) => Cell::Literal(value@),
            Cell::Bits(value) => Cell::Bits(*value),
            Cell::Integer(value) => Cell::Integer(*value),
            Cell::Quotient(value, divisor) => Cell::Quotient(value@, *divisor),
            Cell::Tenths(value) => Cell::Tenths(value@),
            Cell::Scaled(number, exponent) => Cell::Scaled(*number, *exponent),
        }
    }
}

/// The groups of indexes that have been created in this run, for each database.
pub struct IndexGroups {
    created: KeyedLists<String>,
}

impl IndexGroups {
    /// The collection is well formed.
    pub closed spec fn wf(self) -> bool {
        self.created.wf()
    }

    /// Whether a group of indexes has been created in a database.
    pub closed spec fn created(self, db_path: Seq<char>, group: Seq<char>) -> bool {
        text::views(self.created.at(db_path)).contains(group)
    }

    /// Nothing created yet.
    pub fn new() -> (r: Self)
        ensures
            r.wf(),
            forall|p: Seq<char>, g: Seq<char>| !#[trigger] r.created(p, g),
    {
        let r = IndexGroups { created: KeyedLists::new() };
        assert forall|p: Seq<char>, g: Seq<char>| !#[trigger] r.created(p, g) by {
            assert(r.created.at(p).len() == 0);
        }
        r
    }

    /// Tests whether a group of indexes has been created in a database.
    pub fn is_created(&self, db_path: &str, group: &str) -> (r: bool)
        requires
            self.wf(),
        ensures
            r == self.created(db_path@, group@),
    {
        match self.created.get(db_path) {
            Some(groups) => {
                let ghost all = text::views(groups@);
                for i in 0..groups.len()
                    invariant
                        all == text::views(self.created.at(db_path@)),
                        groups@ == self.created.at(db_path@),
                        forall|k: int| 0 <= k < i ==> all[k] != group@,
                {
                    if text::same(groups[i].as_str(), group) {
                        assert(all[i as int] == group@);
                        return true;
                    }
                }
                false
            },
            None => {
                assert(text::views(self.created.at(db_path@)).len() == 0);
                false
            },
        }
    }

    /// Records that a group of indexes has been created in a database.
    pub fn record(&mut self, db_path: &str, group: &str)
        requires
            old(self).wf(),
        ensures
            final(self).wf(),
            forall|p: Seq<char>, g: Seq<char>| #[trigger]
                final(self).created(p, g) <==> old(self).created(p, g) || (p == db_path@ && g
                    == group@),
    {
        let item: String = text::copy(group);
        self.created.push(db_path, item);
        proof {
            text::lemma_views_push(old(self).created.at(db_path@), item);
            assert forall|p: Seq<char>, g: Seq<char>| #[trigger]
                self.created(p, g) <==> old(self).created(p, g) || (p == db_path@ && g
                == group@) by {
                crate::keyed::lemma_contains_push(
                    text::views(old(self).created.at(db_path@)),
                    group@,
                    g,
                );
            }
        }
    }
}

/// The statements that make a database fast at the price of safety.
pub open spec fn fast_pragmas() -> Seq<Seq<char>> {
    seq![
        "PRAGMA journal_mode = MEMORY"@,
        "PRAGMA synchronous = OFF"@,
        "PRAGMA cache_size = -64000"@,
        "PRAGMA temp_store = MEMORY"@,
        "PRAGMA mmap_size = 268435456"@,
    ]
}

/// The statements that make a database fast at the price of safety.
pub fn optimize_native() -> (r: Vec<String>)
    ensures
        text::views(r@) == fast_pragmas(),
{
    let r: Vec<String> = vec![
        text::copy("PRAGMA journal_mode = MEMORY"),
        text::copy("PRAGMA synchronous = OFF"),
        text::copy("PRAGMA cache_size = -64000"),
        text::copy("PRAGMA temp_store = MEMORY"),
        text::copy("PRAGMA mmap_size = 268435456"),
    ];
    assert(text::views(r@) =~= fast_pragmas());
    r
}

/// The statements that make a database safe again once the run is over.
pub open spec fn safe_pragmas() -> Seq<Seq<char>> {
    seq![
        "PRAGMA optimize"@,
        "PRAGMA wal_checkpoint(TRUNCATE)"@,
        "PRAGMA journal_mode = DELETE"@,
        "PRAGMA synchronous = FULL"@,
        "PRAGMA cache_size = -2000"@,
        "PRAGMA temp_store = DEFAULT"@,
        "PRAGMA mmap_size = 0"@,
    ]
}

/// The statements that make a database safe again once the run is over.
pub fn restore_defaults_native() -> (r: Vec<String>)
    ensures
        text::views(r@) == safe_pragmas(),
{
    let r: Vec<String> = vec![
        text::copy("PRAGMA optimize"),
        text::copy("PRAGMA wal_checkpoint(TRUNCATE)"),
        text::copy("PRAGMA journal_mode = DELETE"),
        text::copy("PRAGMA synchronous = FULL"),
        text::copy("PRAGMA cache_size = -2000"),
        text::copy("PRAGMA temp_store = DEFAULT"),
        text::copy("PRAGMA mmap_size = 0"),
    ];
    assert(text::views(r@) =~= safe_pragmas());
    r
}

/// The statements that are run on a database that was opened anew after the run.
pub open spec fn reopened_pragmas() -> Seq<Seq<char>> {
    seq![
        "PRAGMA wal_checkpoint(TRUNCATE)"@,
        "PRAGMA journal_mode = DELETE"@,
        "PRAGMA synchronous = FULL"@,
        "PRAGMA cache_size = -2000"@,
        "PRAGMA temp_store = DEFAULT"@,
        "PRAGMA mmap_size = 0"@,
    ]
}

/// The statements that are run on a database that was opened anew after the run.
pub fn restore_database_pragmas_sqlite() -> (r: Vec<String>)
    ensures
        text::views(r@) == reopened_pragmas(),
{
    let r: Vec<String> = vec![
        text::copy("PRAGMA wal_checkpoint(TRUNCATE)"),
        text::copy("PRAGMA journal_mode = DELETE"),
        text::copy("PRAGMA synchronous = FULL"),
        text::copy("PRAGMA cache_size = -2000"),
        text::copy("PRAGMA temp_store = DEFAULT"),
        text::copy("PRAGMA mmap_size = 0"),
    ];
    assert(text::views(r@) =~= reopened_pragmas());
    r
}

/// The statements that create the indexes over the identifiers of fixes.
pub open spec fn nav_id_indexes() -> Seq<Seq<char>> {
    seq![
        "CREATE INDEX IF NOT EXISTS idx_tbl_enroute_ndbnavaids_id ON tbl_enroute_ndbnavaids (ndb_identifier)"@,
        "CREATE INDEX IF NOT EXISTS idx_tbl_vhfnavaids_id ON tbl_vhfnavaids (vor_identifier)"@,
        "CREATE INDEX IF NOT EXISTS idx_tbl_terminal_ndbnavaids_id ON tbl_terminal_ndbnavaids (ndb_identifier)"@,
        "CREATE INDEX IF NOT EXISTS idx_tbl_enroute_waypoints_id ON tbl_enroute_waypoints (waypoint_identifier)"@,
        "CREATE INDEX IF NOT EXISTS idx_tbl_terminal_waypoints_id ON tbl_terminal_waypoints (waypoint_identifier)"@,
        "CREATE INDEX IF NOT EXISTS idx_tbl_airports_id ON tbl_airports (airport_identifier)"@,
    ]
}

/// The statements that create the indexes over the identifiers of fixes.
pub fn ensure_nav_id_indexes() -> (r: Vec<String>)
    ensures
        text::views(r@) == nav_id_indexes(),
{
    let r: Vec<String> = vec![
        text::copy("CREATE INDEX IF NOT EXISTS idx_tbl_enroute_ndbnavaids_id ON tbl_enroute_ndbnavaids (ndb_identifier)"),
        text::copy("CREATE INDEX IF NOT EXISTS idx_tbl_vhfnavaids_id ON tbl_vhfnavaids (vor_identifier)"),
        text::copy("CREATE INDEX IF NOT EXISTS idx_tbl_terminal_ndbnavaids_id ON tbl_terminal_ndbnavaids (ndb_identifier)"),
        text::copy("CREATE INDEX IF NOT EXISTS idx_tbl_enroute_waypoints_id ON tbl_enroute_waypoints (waypoint_identifier)"),
        text::copy("CREATE INDEX IF NOT EXISTS idx_tbl_terminal_waypoints_id ON tbl_terminal_waypoints (waypoint_identifier)"),
        text::copy("CREATE INDEX IF NOT EXISTS idx_tbl_airports_id ON tbl_airports (airport_identifier)"),
    ];
    assert(text::views(r@) =~= nav_id_indexes());
    r
}

/// The query with a list of bound values in brackets: the text before them, the variables, and the
/// text behind them.
pub open spec fn text_query(head: Seq<char>, tail: Seq<char>, run: Seq<Seq<char>>) -> BoundQuery<
    Seq<char>,
    Seq<Seq<char>>,
> {
    BoundQuery { sql: head + repeated("?"@, ","@, run.len()) + tail, parameters: run }
}

/// The queries for values, cut into runs.
pub open spec fn text_queries(
    head: Seq<char>,
    tail: Seq<char>,
    values: Seq<Seq<char>>,
    size: int,
) -> Seq<BoundQuery<Seq<char>, Seq<Seq<char>>>> {
    chunks(values, size).map_values(|run: Seq<Seq<char>>| text_query(head, tail, run))
}

/// Builds the queries for values.
pub fn list_text_queries(head: &str, tail: &str, values: &Vec<String>, size: usize) -> (out: Vec<
    BoundQuery,
>)
    requires
        size > 0,
    ensures
        text::views(out@) == text_queries(head@, tail@, text::views(values@), size as int),
{
    let ghost goal = text_queries(head@, tail@, text::views(values@), size as int);
    let runs: Vec<Vec<String>> = chunk_texts(values, size);
    let ghost cut = list_views(runs@);
    let mut out: Vec<BoundQuery> = Vec::new();
    assert(text::views(out@) =~= goal.take(0));
    for run in it: runs
        invariant
            cut == list_views(it.seq()),
            goal == cut.map_values(|run: Seq<Seq<char>>| text_query(head@, tail@, run)),
            text::views(out@) == goal.take(it.index() as int),
    {
        let ghost i = it.index() as int;
        let mut sql: String = text::copy(head);
        let variables: String = repeat_text("?", ",", run.len());
        sql.append(variables.as_str());
        sql.append(tail);
        let query = BoundQuery { sql, parameters: run };
        proof {
            assert(cut[i] == text::views(query.parameters@));
            text::lemma_views_push(out@, query);
            assert(query@ == text_query(head@, tail@, cut[i]));
            assert(goal.take(i + 1) =~= goal.take(i).push(query@));
        }
        out.push(query);
    }
    assert(goal.take(cut.len() as int) == goal);
    out
}

/// A quoted identifier stands between quotes; one without quotes of its own is not changed.
pub proof fn identifiers_stand_between_quotes(identifier: Seq<char>)
    ensures
        quoted_identifier(identifier)[0] == '"',
        quoted_identifier(identifier).last() == '"',
        !identifier.contains('"') ==> quoted_identifier(identifier) == seq!['"'] + identifier
            + seq!['"'],
    decreases identifier.len(),
{
    if !identifier.contains('"') {
        lemma_nothing_doubled(identifier);
    }
}

proof fn lemma_nothing_doubled(s: Seq<char>)
    requires
        !s.contains('"'),
    ensures
        doubled_quotes(s) == s,
    decreases s.len(),
{
    if s.len() > 0 {
        let init = s.drop_last();
        assert(!init.contains('"')) by {
            if init.contains('"') {
                let k = choose|k: int| 0 <= k < init.len() && init[k] == '"';
                assert(s[k] == '"');
            }
        }
        assert(s.contains(s.last()));
        lemma_nothing_doubled(init);
        assert(init.push(s.last()) =~= s);
    }
}

/// Placeholders are question marks with a comma and a blank between them.
pub proof fn placeholders_are_question_marks(n: nat, k: int)
    requires
        0 <= k < n,
    ensures
        placeholders(0).len() == 0,
        placeholders(n).len() == 3 * n - 2,
        placeholders(n)[3 * k] == '?',
        k < n - 1 ==> placeholders(n)[3 * k + 1] == ',' && placeholders(n)[3 * k + 2] == ' ',
    decreases n,
{
    reveal_strlit("?");
    reveal_strlit(", ");
    assert("?"@ =~= seq!['?']);
    assert(", "@ =~= seq![',', ' ']);
    if n > 1 {
        let fewer = (n - 1) as nat;
        placeholders_are_question_marks(
            fewer,
            if k < n - 1 {
                k
            } else {
                0
            },
        );
        assert(placeholders(n) == placeholders(fewer) + ", "@ + "?"@);
    }
}

/// Joined texts stand behind each other with the separator between them.
pub proof fn texts_are_joined_with_the_separator_between(
    parts: Seq<Seq<char>>,
    separator: Seq<char>,
    part: Seq<char>,
)
    ensures
        joined(seq![part], separator) == part,
        parts.len() > 0 ==> joined(parts.push(part), separator) == joined(parts, separator)
            + separator + part,
{
    assert(parts.push(part).drop_last() =~= parts);
}

/// Items are repeated with the separator between them.
pub proof fn items_are_repeated_with_the_separator_between(
    item: Seq<char>,
    separator: Seq<char>,
    n: nat,
)
    ensures
        repeated(item, separator, 0).len() == 0,
        repeated(item, separator, 1) == item,
        n > 0 ==> repeated(item, separator, n + 1) == repeated(item, separator, n) + separator
            + item,
{
}

/// The parameters of a query are the values of its rows, row by row.
pub proof fn parameters_stand_row_by_row(
    head: Seq<char>,
    group: Seq<char>,
    run: Seq<Seq<Seq<char>>>,
    width: nat,
    i: int,
    k: int,
)
    requires
        0 <= i < run.len(),
        0 <= k < width,
        forall|j: int| 0 <= j < run.len() ==> (#[trigger] run[j]).len() == width,
    ensures
        row_query(head, group, run).parameters.len() == run.len() * width,
        row_query(head, group, run).parameters[i * width + k] == run[i][k],
        row_query(head, group, run).sql == head + repeated(group, ","@, run.len()) + ")"@,
    decreases run.len(),
{
    let init = run.drop_last();
    assert forall|j: int| 0 <= j < init.len() implies (#[trigger] init[j]).len() == width by {
        assert(init[j] == run[j]);
    }
    assert(run[run.len() - 1].len() == width);
    let all = text::flat_collect(run, row_values());
    let before = text::flat_collect(init, row_values());
    assert(all == before + run.last());
    if init.len() == 0 {
        assert(before.len() == 0);
        assert(i * width + k == k) by (nonlinear_arith)
            requires
                i == 0,
        ;
        assert(run.len() * width == width) by (nonlinear_arith)
            requires
                run.len() == 1,
        ;
    } else {
        let at = if i < init.len() {
            i
        } else {
            0
        };
        parameters_stand_row_by_row(head, group, init, width, at, k);
        assert(before.len() == init.len() * width);
        assert(run.len() * width == init.len() * width + width) by (nonlinear_arith)
            requires
                run.len() == init.len() + 1,
        ;
        if i < init.len() {
            assert(i * width + k < init.len() * width) by (nonlinear_arith)
                requires
                    0 <= i < init.len(),
                    0 <= k < width,
            ;
            assert(0 <= i * width) by (nonlinear_arith)
                requires
                    0 <= i,
            ;
            assert(init[i] == run[i]);
        }
    }
}

/// A query for texts has a place for each of them, and an insertion one for each column.
pub proof fn statements_have_a_place_for_every_value(
    head: Seq<char>,
    tail: Seq<char>,
    run: Seq<Seq<char>>,
    table: Seq<char>,
)
    ensures
        text_query(head, tail, run).parameters == run,
        text_query(head, tail, run).sql == head + repeated("?"@, ","@, run.len()) + tail,
        insert_statement(table, run) == "INSERT OR IGNORE INTO "@ + quoted_identifier(table)
            + " ("@ + joined(run.map_values(|name: Seq<char>| quoted_identifier(name)), ", "@)
            + ") VALUES ("@ + repeated("?"@, ", "@, run.len()) + ")"@,
{
}

/// Rows are asked for in batches of the wanted size, but at least one and at most as many as bind
/// 999 variables.
pub proof fn batches_are_as_large_as_wanted(wanted: int)
    ensures
        1 <= wanted <= 499 ==> batch_limit(wanted, 2) == wanted,
        wanted > 499 ==> batch_limit(wanted, 2) == 499,
        1 <= wanted <= 333 ==> batch_limit(wanted, 3) == wanted,
        wanted > 333 ==> batch_limit(wanted, 3) == 333,
        wanted < 1 ==> batch_limit(wanted, 2) == 1 && batch_limit(wanted, 3) == 1,
{
}

/// While rows are written, safety is traded for speed; afterwards it is taken back, and the settings
/// of a reopened database are those of a finished one without the optimization.
pub proof fn safety_is_taken_back_after_writing(i: int)
    ensures
        fast_pragmas().len() == 5,
        fast_pragmas()[0] == "PRAGMA journal_mode = MEMORY"@,
        fast_pragmas()[1] == "PRAGMA synchronous = OFF"@,
        fast_pragmas()[2] == "PRAGMA cache_size = -64000"@,
        fast_pragmas()[3] == "PRAGMA temp_store = MEMORY"@,
        fast_pragmas()[4] == "PRAGMA mmap_size = 268435456"@,
        safe_pragmas().len() == 7,
        safe_pragmas()[0] == "PRAGMA optimize"@,
        safe_pragmas()[1] == "PRAGMA wal_checkpoint(TRUNCATE)"@,
        safe_pragmas()[2] == "PRAGMA journal_mode = DELETE"@,
        safe_pragmas()[3] == "PRAGMA synchronous = FULL"@,
        safe_pragmas()[4] == "PRAGMA cache_size = -2000"@,
        safe_pragmas()[5] == "PRAGMA temp_store = DEFAULT"@,
        safe_pragmas()[6] == "PRAGMA mmap_size = 0"@,
        reopened_pragmas() == safe_pragmas().skip(1),
{
}

/// Tables of points are indexed by their identifiers.
pub proof fn tables_of_points_are_indexed_by_identifier()
    ensures
        nav_id_indexes().len() == 6,
        nav_id_indexes()[0]
            == "CREATE INDEX IF NOT EXISTS idx_tbl_enroute_ndbnavaids_id ON tbl_enroute_ndbnavaids (ndb_identifier)"@,
        nav_id_indexes()[1]
            == "CREATE INDEX IF NOT EXISTS idx_tbl_vhfnavaids_id ON tbl_vhfnavaids (vor_identifier)"@,
        nav_id_indexes()[2]
            == "CREATE INDEX IF NOT EXISTS idx_tbl_terminal_ndbnavaids_id ON tbl_terminal_ndbnavaids (ndb_identifier)"@,
        nav_id_indexes()[3]
            == "CREATE INDEX IF NOT EXISTS idx_tbl_enroute_waypoints_id ON tbl_enroute_waypoints (waypoint_identifier)"@,
        nav_id_indexes()[4]
            == "CREATE INDEX IF NOT EXISTS idx_tbl_terminal_waypoints_id ON tbl_terminal_waypoints (waypoint_identifier)"@,
        nav_id_indexes()[5]
            == "CREATE INDEX IF NOT EXISTS idx_tbl_airports_id ON tbl_airports (airport_identifier)"@,
{
}

/// Rows are asked for in runs; no row is left out, and each run binds its own rows.
pub proof fn every_row_is_asked_for(
    head: Seq<char>,
    group: Seq<char>,
    rows: Seq<Seq<Seq<char>>>,
    tail: Seq<char>,
    values: Seq<Seq<char>>,
    size: int,
)
    requires
        size > 0,
    ensures
        row_queries(head, group, rows, size).len() == chunks(rows, size).len(),
        forall|i: int|
            0 <= i < chunks(rows, size).len() ==> #[trigger] row_queries(head, group, rows, size)[i]
                == row_query(head, group, chunks(rows, size)[i]),
        text_queries(head, tail, values, size).len() == chunks(values, size).len(),
        forall|i: int|
            0 <= i < chunks(values, size).len() ==> (#[trigger] text_queries(
                head,
                tail,
                values,
                size,
            )[i]).parameters == chunks(values, size)[i],
        0 < rows.len() <= size ==> chunks(rows, size) == seq![rows],
        rows.len() > size ==> chunks(rows, size)[0] == rows.take(size) && chunks(rows, size).skip(1)
            == chunks(rows.skip(size), size),
{
    if rows.len() > size {
        let rest = chunks(rows.skip(size), size);
        assert((seq![rows.take(size)] + rest).skip(1) =~= rest);
    }
}

/// Every field of a `BoundQuery` is seen under its own name.
pub proof fn every_field_of_bound_query_is_seen(it: BoundQuery)
    ensures
        it@.sql == it.sql@,
        it@.parameters == text::views(it.parameters@),
{
}

} // verus!
