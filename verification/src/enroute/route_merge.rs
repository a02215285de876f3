//! Merging the points of an airway from a route file into those that the database holds.

use crate::keyed;
use crate::keyed::{KeyedLists, TextSet};
use crate::text;
use vstd::hash_map::StringHashMap;
use vstd::prelude::*;

verus! {

/// A point of a route in the route file, with the row that it stands in.
#[verifier::ext_equal]
pub struct CsvRoutePoint<T = String> {
    pub waypoint: T,
    pub row: usize,
}

impl View for CsvRoutePoint {
    type V = CsvRoutePoint<Seq<char>>;

    open spec fn view(&self) -> Self::V {
        CsvRoutePoint { waypoint: self.waypoint@, row: self.row }
    }
}

/// A point of a route in the database, with the row that it stands in and its sequence number.
#[verifier::ext_equal]
pub struct DbRoutePoint<T = String> {
    pub waypoint: T,
    pub row: usize,
    pub seqno: i64,
}

impl View for DbRoutePoint {
    type V = DbRoutePoint<Seq<char>>;

    open spec fn view(&self) -> Self::V {
        DbRoutePoint { waypoint: self.waypoint@, row: self.row, seqno: self.seqno }
    }
}

/// The waypoints of the points of a route file.
pub open spec fn csv_waypoints(points: Seq<CsvRoutePoint<Seq<char>>>) -> Seq<Seq<char>> {
    points.map_values(|p: CsvRoutePoint<Seq<char>>| p.waypoint)
}

/// The waypoints of the points in the database.
pub open spec fn db_waypoints(points: Seq<DbRoutePoint<Seq<char>>>) -> Seq<Seq<char>> {
    points.map_values(|p: DbRoutePoint<Seq<char>>| p.waypoint)
}

/// The first position of `t` in `s`, or the length where it does not occur.
pub open spec fn first_index(s: Seq<Seq<char>>, t: Seq<char>) -> int
    decreases s.len(),
{
    if s.len() == 0 || s[0] == t {
        0
    } else {
        1 + first_index(s.skip(1), t)
    }
}

/// What the first position means.
pub proof fn lemma_first_index(s: Seq<Seq<char>>, t: Seq<char>)
    ensures
        0 <= first_index(s, t) <= s.len(),
        first_index(s, t) < s.len() <==> s.contains(t),
        first_index(s, t) < s.len() ==> s[first_index(s, t)] == t,
        forall|k: int| 0 <= k < first_index(s, t) ==> s[k] != t,
    decreases s.len(),
{
    if s.len() > 0 && s[0] != t {
        let rest = s.skip(1);
        lemma_first_index(rest, t);
        assert forall|k: int| 0 <= k < first_index(s, t) implies s[k] != t by {
            if k > 0 {
                assert(s[k] == rest[k - 1]);
            }
        }
        if s.contains(t) {
            let k = choose|k: int| 0 <= k < s.len() && s[k] == t;
            assert(rest[k - 1] == t);
        }
    }
}

/// The first position after `i` of a database point that the route file has too, or the length.
pub open spec fn next_common(db: Seq<Seq<char>>, csv: Seq<Seq<char>>, i: int) -> int
    decreases db.len() - i,
{
    if i + 1 >= db.len() {
        db.len() as int
    } else if csv.contains(db[i + 1]) {
        i + 1
    } else {
        next_common(db, csv, i + 1)
    }
}

/// The points of the route file that lie strictly between two of its positions, in the direction
/// from the first to the second.
pub open spec fn between(csv: Seq<Seq<char>>, from: int, to: int) -> Seq<Seq<char>> {
    if from < to {
        csv.subrange(from + 1, to)
    } else if to < from {
        csv.subrange(to + 1, from).reverse()
    } else {
        seq![]
    }
}

/// The points of the route file that belong behind the database point at `i`: those on the way
/// to the next point that both have.
pub open spec fn stretch(db: Seq<Seq<char>>, csv: Seq<Seq<char>>, i: int) -> Seq<Seq<char>> {
    let next = next_common(db, csv, i);
    if csv.contains(db[i]) && next < db.len() {
        between(csv, first_index(csv, db[i]), first_index(csv, db[next]))
    } else {
        seq![]
    }
}

/// Each database point with the points that belong behind it.
pub open spec fn stretched(db: Seq<Seq<char>>, csv: Seq<Seq<char>>) -> spec_fn(
    int,
    Seq<char>,
) -> Seq<Seq<char>> {
    |i: int, point: Seq<char>| seq![point] + stretch(db, csv, i)
}

/// Whether two routes have a point in common.
pub open spec fn overlap(db: Seq<Seq<char>>, csv: Seq<Seq<char>>) -> bool {
    exists|i: int| 0 <= i < db.len() && csv.contains(#[trigger] db[i])
}

/// The order of the merged route: empty without a common point, else the database points, each
/// followed by the stretch of the route file that belongs behind it, every point at its first
/// place only.
pub open spec fn merged_order(db: Seq<Seq<char>>, csv: Seq<Seq<char>>) -> Seq<Seq<char>> {
    if overlap(db, csv) {
        keyed::distinct(text::flat_collect(db, stretched(db, csv)))
    } else {
        seq![]
    }
}

proof fn lemma_next_common(db: Seq<Seq<char>>, csv: Seq<Seq<char>>, i: int)
    requires
        0 <= i < db.len(),
    ensures
        i < next_common(db, csv, i) <= db.len(),
        next_common(db, csv, i) < db.len() ==> csv.contains(db[next_common(db, csv, i)]),
    decreases db.len() - i,
{
    if i + 1 < db.len() && !csv.contains(db[i + 1]) {
        lemma_next_common(db, csv, i + 1);
    }
}

/// The first position of every waypoint of a route file.
fn index_waypoints(csv: &Vec<CsvRoutePoint>) -> (r: StringHashMap<usize>)
    ensures
        forall|t: Seq<char>| #[trigger]
            r@.contains_key(t) <==> csv_waypoints(text::views(csv@)).contains(t),
        forall|t: Seq<char>| #[trigger]
            r@.contains_key(t) ==> r@[t] == first_index(csv_waypoints(text::views(csv@)), t)
                && r@[t] < csv@.len(),
{
    let ghost all = csv_waypoints(text::views(csv@));
    let mut r: StringHashMap<usize> = StringHashMap::new();
    for i in 0..csv.len()
        invariant
            all == csv_waypoints(text::views(csv@)),
            forall|t: Seq<char>| #[trigger]
                r@.contains_key(t) <==> exists|k: int| 0 <= k < i && all[k] == t,
            forall|t: Seq<char>| #[trigger]
                r@.contains_key(t) ==> r@[t] == first_index(all, t) && r@[t] < csv@.len(),
    {
        let ghost before = r@;
        let ghost wp = all[i as int];
        assert(wp == csv@[i as int].waypoint@);
        if !r.contains_key(csv[i].waypoint.as_str()) {
            r.insert(csv[i].waypoint.clone(), i);
            proof {
                lemma_first_index(all, wp);
                assert(all.contains(wp));
                assert forall|k: int| 0 <= k < i implies all[k] != wp by {
                    assert(!before.contains_key(wp));
                }
                assert(first_index(all, wp) == i);
            }
        }
        assert forall|t: Seq<char>| #[trigger] r@.contains_key(t) <==> exists|k: int|
            0 <= k < i + 1 && all[k] == t by {
            if before.contains_key(t) {
                let k = choose|k: int| 0 <= k < i && all[k] == t;
                assert(0 <= k < i + 1 && all[k] == t);
            } else if t == wp {
                assert(0 <= i < i + 1 && all[i as int] == t);
            }
        }
    }
    r
}

fn push_between(set: &mut TextSet, csv: &Vec<CsvRoutePoint>, from: usize, to: usize, Ghost(whole):
    Ghost<Seq<Seq<char>>>)
    requires
        from < csv@.len(),
        to < csv@.len(),
        old(set).wf(),
        old(set)@ == keyed::distinct(whole),
    ensures
        final(set).wf(),
        final(set)@ == keyed::distinct(
            whole + between(csv_waypoints(text::views(csv@)), from as int, to as int),
        ),
{
    let ghost all = csv_waypoints(text::views(csv@));
    let ghost part = between(all, from as int, to as int);
    assert(whole + part.take(0) =~= whole);
    if from < to {
        let mut i: usize = from + 1;
        while i < to
            invariant
                from < i <= to < csv@.len(),
                all == csv_waypoints(text::views(csv@)),
                part == all.subrange(from + 1, to as int),
                set.wf(),
                set@ == keyed::distinct(whole + part.take(i - from - 1)),
            decreases to - i,
        {
            set.insert(csv[i].waypoint.as_str());
            proof {
                let done = part.take(i - from - 1);
                let wp = csv@[i as int].waypoint@;
                assert(all[i as int] == wp);
                keyed::lemma_distinct_push(whole + done, wp);
                assert((whole + done).push(wp) =~= whole + part.take(i - from));
            }
            i = i + 1;
        }
        assert(part.take(part.len() as int) =~= part);
    } else if to < from {
        let mut i: usize = from;
        while i > to + 1
            invariant
                to + 1 <= i <= from < csv@.len(),
                all == csv_waypoints(text::views(csv@)),
                part == all.subrange(to + 1, from as int).reverse(),
                set.wf(),
                set@ == keyed::distinct(whole + part.take(from - i)),
            decreases i,
        {
            set.insert(csv[i - 1].waypoint.as_str());
            proof {
                let done = part.take(from - i);
                let wp = csv@[i - 1].waypoint@;
                assert(all[i - 1] == wp);
                assert(part[from - i] == wp);
                keyed::lemma_distinct_push(whole + done, wp);
                assert((whole + done).push(wp) =~= whole + part.take(from - i + 1));
            }
            i = i - 1;
        }
        assert(part.take(part.len() as int) =~= part);
    } else {
        assert(whole + part =~= whole);
    }
}

/// For every database point the position of the next one that the route file has too.
fn index_common(db: &Vec<DbRoutePoint>, csv_index: &StringHashMap<usize>, Ghost(csv): Ghost<
    Seq<Seq<char>>,
>) -> (r: Vec<usize>)
    requires
        forall|t: Seq<char>| #[trigger] csv_index@.contains_key(t) <==> csv.contains(t),
    ensures
        r@.len() == db@.len(),
        forall|i: int|
            0 <= i < db@.len() ==> #[trigger] r@[i] == next_common(
                db_waypoints(text::views(db@)),
                csv,
                i,
            ),
{
    let ghost all = db_waypoints(text::views(db@));
    let count: usize = db.len();
    let mut r: Vec<usize> = vec![count; count];
    let mut next: usize = count;
    let mut i: usize = count;
    while i > 0
        invariant
            i <= count,
            count == db@.len(),
            all == db_waypoints(text::views(db@)),
            r@.len() == count,
            forall|t: Seq<char>| #[trigger] csv_index@.contains_key(t) <==> csv.contains(t),
            next == next_common(all, csv, i - 1),
            forall|k: int| i <= k < count ==> #[trigger] r@[k] == next_common(all, csv, k),
        decreases i,
    {
        i = i - 1;
        r[i] = next;
        assert(all[i as int] == db@[i as int].waypoint@);
        if csv_index.contains_key(db[i].waypoint.as_str()) {
            next = i;
        }
    }
    r
}

/// Merges the points of a route file into those of the database.
pub fn merge_airway_route_order(db_rows: &Vec<DbRoutePoint>, csv_rows: &Vec<CsvRoutePoint>) -> (r:
    TextSet)
    ensures
        r.wf(),
        r@ == merged_order(
            db_waypoints(text::views(db_rows@)),
            csv_waypoints(text::views(csv_rows@)),
        ),
{
    let ghost db = db_waypoints(text::views(db_rows@));
    let ghost csv = csv_waypoints(text::views(csv_rows@));
    let ghost f = stretched(db, csv);
    let csv_index: StringHashMap<usize> = index_waypoints(csv_rows);
    let common: Vec<usize> = index_common(db_rows, &csv_index, Ghost(csv));
    let mut set: TextSet = TextSet::new();
    let mut shared: bool = false;
    assert(db.take(0).len() == 0);
    for i in 0..db_rows.len()
        invariant
            db == db_waypoints(text::views(db_rows@)),
            csv == csv_waypoints(text::views(csv_rows@)),
            f == stretched(db, csv),
            forall|t: Seq<char>| #[trigger] csv_index@.contains_key(t) <==> csv.contains(t),
            forall|t: Seq<char>| #[trigger]
                csv_index@.contains_key(t) ==> csv_index@[t] == first_index(csv, t)
                    && csv_index@[t] < csv_rows@.len(),
            common@.len() == db_rows@.len(),
            forall|k: int| 0 <= k < db.len() ==> #[trigger] common@[k] == next_common(db, csv, k),
            set.wf(),
            set@ == keyed::distinct(text::flat_collect(db.take(i as int), f)),
            shared == exists|k: int| 0 <= k < i && csv.contains(#[trigger] db[k]),
    {
        let ghost whole = text::flat_collect(db.take(i as int), f);
        let ghost wp = db[i as int];
        assert(wp == db_rows@[i as int].waypoint@);
        set.insert(db_rows[i].waypoint.as_str());
        proof {
            text::lemma_flat_collect_step(db, f, i as int);
            keyed::lemma_distinct_push(whole, wp);
            lemma_next_common(db, csv, i as int);
        }
        let ghost with_point = whole.push(wp);
        let ghost target = text::flat_collect(db.take(i + 1), f);
        assert(target =~= with_point + stretch(db, csv, i as int));
        match csv_index.get(db_rows[i].waypoint.as_str()) {
            Some(from) => {
                shared = true;
                assert(csv.contains(db[i as int]));
                let next: usize = common[i];
                if next < db_rows.len() {
                    assert(db[next as int] == db_rows@[next as int].waypoint@);
                    assert(csv_index@.contains_key(db[next as int]));
                    match csv_index.get(db_rows[next].waypoint.as_str()) {
                        Some(to) => {
                            push_between(&mut set, csv_rows, *from, *to, Ghost(with_point));
                        },
                        None => {},
                    }
                } else {
                    assert(target =~= with_point);
                }
            },
            None => {
                assert(!csv.contains(wp));
                assert(target =~= with_point);
            },
        }
    }
    assert(db.take(db_rows@.len() as int) == db);
    if shared {
        set
    } else {
        TextSet::new()
    }
}

/// A merged route has no point twice.
pub proof fn merged_order_has_no_duplicates(db: Seq<Seq<char>>, csv: Seq<Seq<char>>)
    ensures
        merged_order(db, csv).no_duplicates(),
{
    keyed::lemma_distinct(text::flat_collect(db, stretched(db, csv)));
}

proof fn lemma_stretched_members(db: Seq<Seq<char>>, csv: Seq<Seq<char>>, n: int)
    requires
        0 <= n <= db.len(),
    ensures
        forall|t: Seq<char>| #[trigger]
            text::flat_collect(db.take(n), stretched(db, csv)).contains(t) ==> db.contains(t)
                || csv.contains(t),
        forall|k: int|
            0 <= k < n ==> text::flat_collect(db.take(n), stretched(db, csv)).contains(
                #[trigger] db[k],
            ),
    decreases n,
{
    let f = stretched(db, csv);
    if n > 0 {
        lemma_stretched_members(db, csv, n - 1);
        text::lemma_flat_collect_step(db, f, n - 1);
        lemma_next_common(db, csv, n - 1);
        let init = text::flat_collect(db.take(n - 1), f);
        let tail = f(n - 1, db[n - 1]);
        let whole = text::flat_collect(db.take(n), f);
        let part = stretch(db, csv, n - 1);
        lemma_first_index(csv, db[n - 1]);
        let next = next_common(db, csv, n - 1);
        if next < db.len() {
            lemma_first_index(csv, db[next]);
        }
        assert forall|t: Seq<char>| #[trigger] whole.contains(t) implies db.contains(t)
            || csv.contains(t) by {
            let k = choose|k: int| 0 <= k < whole.len() && whole[k] == t;
            if k < init.len() {
                assert(init[k] == t);
                assert(init.contains(t));
            } else if k == init.len() {
                assert(db[n - 1] == t);
            } else {
                let m = k - init.len() - 1;
                assert(part[m] == t);
                let from = first_index(csv, db[n - 1]);
                let to = first_index(csv, db[next]);
                if from < to {
                    assert(csv[from + 1 + m] == t);
                } else {
                    assert(csv[from - 1 - m] == t);
                }
            }
        }
        assert forall|k: int| 0 <= k < n implies whole.contains(#[trigger] db[k]) by {
            if k < n - 1 {
                assert(init.contains(db[k]));
                let m = choose|m: int| 0 <= m < init.len() && init[m] == db[k];
                assert(whole[m] == db[k]);
            } else {
                assert(whole[init.len() as int] == db[k]);
            }
        }
    }
}

/// A merged route holds every point of the database, and none that neither source has.
pub proof fn merged_order_members(db: Seq<Seq<char>>, csv: Seq<Seq<char>>)
    requires
        overlap(db, csv),
    ensures
        forall|t: Seq<char>| #[trigger] db.contains(t) ==> merged_order(db, csv).contains(t),
        forall|t: Seq<char>| #[trigger]
            merged_order(db, csv).contains(t) ==> db.contains(t) || csv.contains(t),
{
    let whole = text::flat_collect(db, stretched(db, csv));
    lemma_stretched_members(db, csv, db.len() as int);
    assert(db.take(db.len() as int) == db);
    keyed::lemma_distinct(whole);
    assert forall|t: Seq<char>| #[trigger] db.contains(t) implies merged_order(db, csv).contains(
        t,
    ) by {
        let k = choose|k: int| 0 <= k < db.len() && db[k] == t;
        assert(whole.contains(db[k]));
    }
}

/// Where a row of a merged route comes from.
#[derive(Clone, Copy, PartialEq, Eq, Debug, Structural)]
pub enum RowSource {
    Csv,
    Db,
}

/// One row of the merged data: its source, the row there, and the sequence number that it gets
/// where it does not keep its own.
#[derive(Clone, Copy, PartialEq, Eq, Debug, Structural)]
pub struct RowPlanEntry {
    pub source: RowSource,
    pub row: usize,
    pub seqno: Option<i64>,
}

/// The sequence number of the first point of a route.
pub const FIRST_SEQNO: i64 = 1000;

/// The step between the sequence numbers of neighbouring points.
pub const SEQNO_STEP: i64 = 5;

/// The largest sequence number of a route in the database, or the first one where it has none.
pub open spec fn max_seqno(db: Seq<DbRoutePoint<Seq<char>>>) -> int
    decreases db.len(),
{
    if db.len() == 0 {
        FIRST_SEQNO as int
    } else if db.len() == 1 {
        db[0].seqno as int
    } else {
        let rest = max_seqno(db.drop_last());
        if db.last().seqno >= rest {
            db.last().seqno as int
        } else {
            rest
        }
    }
}

/// The rows of a route without a common point: the database rows as they are, then the rows of
/// the route file, numbered on.
pub open spec fn appended_plan(
    csv: Seq<CsvRoutePoint<Seq<char>>>,
    db: Seq<DbRoutePoint<Seq<char>>>,
) -> Seq<RowPlanEntry> {
    Seq::new(
        db.len(),
        |i: int| RowPlanEntry { source: RowSource::Db, row: db[i].row, seqno: None },
    ) + Seq::new(
        csv.len(),
        |i: int|
            RowPlanEntry {
                source: RowSource::Csv,
                row: csv[i].row,
                seqno: Some((max_seqno(db) + SEQNO_STEP * (i + 1)) as i64),
            },
    )
}

/// The source of a merged point: the first row with it in the route file, else in the database.
pub open spec fn point_source(
    csv: Seq<CsvRoutePoint<Seq<char>>>,
    db: Seq<DbRoutePoint<Seq<char>>>,
) -> spec_fn(int, Seq<char>) -> Option<(RowSource, usize)> {
    |i: int, t: Seq<char>|
        if csv_waypoints(csv).contains(t) {
            Some((RowSource::Csv, csv[first_index(csv_waypoints(csv), t)].row))
        } else if db_waypoints(db).contains(t) {
            Some((RowSource::Db, db[first_index(db_waypoints(db), t)].row))
        } else {
            None
        }
}

/// The points of the route file that the merged order leaves out.
pub open spec fn left_over(order: Seq<Seq<char>>) -> spec_fn(
    int,
    CsvRoutePoint<Seq<char>>,
) -> Option<(RowSource, usize)> {
    |i: int, p: CsvRoutePoint<Seq<char>>|
        if order.contains(p.waypoint) {
            None
        } else {
            Some((RowSource::Csv, p.row))
        }
}

/// The sources of the rows of a merged route, in order.
pub open spec fn merged_sources(
    csv: Seq<CsvRoutePoint<Seq<char>>>,
    db: Seq<DbRoutePoint<Seq<char>>>,
) -> Seq<(RowSource, usize)> {
    let order = merged_order(db_waypoints(db), csv_waypoints(csv));
    text::collect(order, point_source(csv, db)) + text::collect(csv, left_over(order))
}

/// The rows of a merged route, numbered from the start.
pub open spec fn numbered(sources: Seq<(RowSource, usize)>) -> Seq<RowPlanEntry> {
    Seq::new(
        sources.len(),
        |i: int|
            RowPlanEntry {
                source: sources[i].0,
                row: sources[i].1,
                seqno: Some((FIRST_SEQNO + SEQNO_STEP * i) as i64),
            },
    )
}

/// The rows of one route; a route that is not in the route file has none.
pub open spec fn route_plan(
    csv: Seq<CsvRoutePoint<Seq<char>>>,
    db: Seq<DbRoutePoint<Seq<char>>>,
) -> Seq<RowPlanEntry> {
    if csv.len() == 0 {
        seq![]
    } else if overlap(db_waypoints(db), csv_waypoints(csv)) {
        numbered(merged_sources(csv, db))
    } else {
        appended_plan(csv, db)
    }
}

/// Whether every sequence number that a route can get fits.
pub open spec fn numberable(
    csv: Seq<CsvRoutePoint<Seq<char>>>,
    db: Seq<DbRoutePoint<Seq<char>>>,
) -> bool {
    &&& FIRST_SEQNO + SEQNO_STEP * (csv.len() + db.len() + csv.len()) <= i64::MAX
    &&& forall|i: int|
        0 <= i < db.len() ==> #[trigger] db[i].seqno + SEQNO_STEP * csv.len() <= i64::MAX
}

/// The largest sequence number of a route that has points is that of one of them.
pub proof fn lemma_max_seqno(db: Seq<DbRoutePoint<Seq<char>>>)
    ensures
        db.len() > 0 ==> exists|i: int| 0 <= i < db.len() && #[trigger] db[i].seqno == max_seqno(
            db,
        ),
    decreases db.len(),
{
    if db.len() > 1 {
        lemma_max_seqno(db.drop_last());
        if db.last().seqno < max_seqno(db.drop_last()) {
            let i = choose|i: int|
                0 <= i < db.drop_last().len() && #[trigger] db.drop_last()[i].seqno == max_seqno(
                    db.drop_last(),
                );
            assert(db[i].seqno == max_seqno(db));
        } else {
            assert(db[db.len() - 1].seqno == max_seqno(db));
        }
    } else if db.len() == 1 {
        assert(db[0].seqno == max_seqno(db));
    }
}

fn find_max_seqno(db: &Vec<DbRoutePoint>) -> (r: i64)
    ensures
        r == max_seqno(text::views(db@)),
{
    let ghost all = text::views(db@);
    if db.len() == 0 {
        return FIRST_SEQNO;
    }
    let mut r: i64 = db[0].seqno;
    assert(all.take(1)[0] == db@[0]@);
    for i in 1..db.len()
        invariant
            db@.len() > 0,
            all == text::views(db@),
            r == max_seqno(all.take(i as int)),
    {
        assert(all.take(i + 1).drop_last() == all.take(i as int));
        assert(all.take(i + 1).last() == db@[i as int]@);
        if db[i].seqno >= r {
            r = db[i].seqno;
        }
    }
    assert(all.take(db@.len() as int) == all);
    r
}

fn push_appended(out: &mut Vec<RowPlanEntry>, csv: &Vec<CsvRoutePoint>, db: &Vec<DbRoutePoint>)
    requires
        numberable(text::views(csv@), text::views(db@)),
    ensures
        final(out)@ == old(out)@ + appended_plan(text::views(csv@), text::views(db@)),
{
    let ghost c = text::views(csv@);
    let ghost d = text::views(db@);
    let ghost before = out@;
    let ghost plan = appended_plan(c, d);
    let largest: i64 = find_max_seqno(db);
    proof {
        lemma_max_seqno(d);
        if d.len() == 0 {
            assert(largest == FIRST_SEQNO);
        }
        assert(largest + SEQNO_STEP * c.len() <= i64::MAX);
    }
    assert(out@ =~= before + plan.take(0));
    for i in 0..db.len()
        invariant
            d == text::views(db@),
            plan == appended_plan(c, d),
            out@ == before + plan.take(i as int),
    {
        out.push(RowPlanEntry { source: RowSource::Db, row: db[i].row, seqno: None });
        assert(d[i as int] == db@[i as int]@);
        assert(out@ =~= before + plan.take(i + 1));
    }
    for i in 0..csv.len()
        invariant
            c == text::views(csv@),
            d == text::views(db@),
            plan == appended_plan(c, d),
            largest == max_seqno(d),
            largest + SEQNO_STEP * c.len() <= i64::MAX,
            SEQNO_STEP * c.len() <= i64::MAX,
            out@ == before + plan.take(d.len() + i),
    {
        assert(SEQNO_STEP * (i + 1) <= SEQNO_STEP * c.len());
        let number: i64 = largest + SEQNO_STEP * (i as i64 + 1);
        out.push(RowPlanEntry { source: RowSource::Csv, row: csv[i].row, seqno: Some(number) });
        assert(c[i as int] == csv@[i as int]@);
        assert(out@ =~= before + plan.take(d.len() + i + 1));
    }
    assert(plan.take(plan.len() as int) == plan);
}

/// The first row of every waypoint of a route file.
fn index_csv_rows(csv: &Vec<CsvRoutePoint>) -> (r: StringHashMap<usize>)
    ensures
        forall|t: Seq<char>| #[trigger]
            r@.contains_key(t) <==> csv_waypoints(text::views(csv@)).contains(t),
        forall|t: Seq<char>| #[trigger]
            r@.contains_key(t) ==> r@[t] == text::views(csv@)[first_index(
                csv_waypoints(text::views(csv@)),
                t,
            )].row,
{
    let index: StringHashMap<usize> = index_waypoints(csv);
    let ghost all = csv_waypoints(text::views(csv@));
    let mut r: StringHashMap<usize> = StringHashMap::new();
    for i in 0..csv.len()
        invariant
            all == csv_waypoints(text::views(csv@)),
            forall|t: Seq<char>| #[trigger] index@.contains_key(t) <==> all.contains(t),
            forall|t: Seq<char>| #[trigger]
                index@.contains_key(t) ==> index@[t] == first_index(all, t) && index@[t]
                    < csv@.len(),
            forall|t: Seq<char>| #[trigger]
                r@.contains_key(t) <==> exists|k: int| 0 <= k < i && all[k] == t,
            forall|t: Seq<char>| #[trigger]
                r@.contains_key(t) ==> r@[t] == text::views(csv@)[first_index(all, t)].row,
    {
        let ghost before = r@;
        let ghost wp = all[i as int];
        assert(wp == csv@[i as int].waypoint@);
        assert(all.contains(wp));
        match index.get(csv[i].waypoint.as_str()) {
            Some(first) => {
                r.insert(csv[i].waypoint.clone(), csv[*first].row);
                assert(text::views(csv@)[*first as int] == csv@[*first as int]@);
            },
            None => {
                assert(index@.contains_key(wp));
            },
        }
        assert forall|t: Seq<char>| #[trigger] r@.contains_key(t) <==> exists|k: int|
            0 <= k < i + 1 && all[k] == t by {
            if before.contains_key(t) {
                let k = choose|k: int| 0 <= k < i && all[k] == t;
                assert(0 <= k < i + 1 && all[k] == t);
            } else if t == wp {
                assert(0 <= i < i + 1 && all[i as int] == t);
            }
        }
    }
    r
}

/// The first row of every waypoint of a route in the database.
fn index_db_rows(db: &Vec<DbRoutePoint>) -> (r: StringHashMap<usize>)
    ensures
        forall|t: Seq<char>| #[trigger]
            r@.contains_key(t) <==> db_waypoints(text::views(db@)).contains(t),
        forall|t: Seq<char>| #[trigger]
            r@.contains_key(t) ==> r@[t] == text::views(db@)[first_index(
                db_waypoints(text::views(db@)),
                t,
            )].row,
{
    let ghost all = db_waypoints(text::views(db@));
    let mut r: StringHashMap<usize> = StringHashMap::new();
    for i in 0..db.len()
        invariant
            all == db_waypoints(text::views(db@)),
            forall|t: Seq<char>| #[trigger]
                r@.contains_key(t) <==> exists|k: int| 0 <= k < i && all[k] == t,
            forall|t: Seq<char>| #[trigger]
                r@.contains_key(t) ==> r@[t] == text::views(db@)[first_index(all, t)].row,
    {
        let ghost before = r@;
        let ghost wp = all[i as int];
        assert(wp == db@[i as int].waypoint@);
        if !r.contains_key(db[i].waypoint.as_str()) {
            r.insert(db[i].waypoint.clone(), db[i].row);
            proof {
                lemma_first_index(all, wp);
                assert(all.contains(wp));
                assert forall|k: int| 0 <= k < i implies all[k] != wp by {
                    assert(!before.contains_key(wp));
                }
                assert(first_index(all, wp) == i);
                assert(text::views(db@)[i as int] == db@[i as int]@);
            }
        }
        assert forall|t: Seq<char>| #[trigger] r@.contains_key(t) <==> exists|k: int|
            0 <= k < i + 1 && all[k] == t by {
            if before.contains_key(t) {
                let k = choose|k: int| 0 <= k < i && all[k] == t;
                assert(0 <= k < i + 1 && all[k] == t);
            } else if t == wp {
                assert(0 <= i < i + 1 && all[i as int] == t);
            }
        }
    }
    r
}

/// Lists the sources of the rows of a merged route.
fn list_merged_sources(csv: &Vec<CsvRoutePoint>, db: &Vec<DbRoutePoint>) -> (out: Vec<
    (RowSource, usize),
>)
    ensures
        out@ == merged_sources(text::views(csv@), text::views(db@)),
{
    let ghost c = text::views(csv@);
    let ghost d = text::views(db@);
    let order: TextSet = merge_airway_route_order(db, csv);
    let csv_rows: StringHashMap<usize> = index_csv_rows(csv);
    let db_rows: StringHashMap<usize> = index_db_rows(db);
    let ghost f = point_source(c, d);
    let ghost g = left_over(order@);
    let mut out: Vec<(RowSource, usize)> = Vec::new();
    let items: &Vec<String> = order.items();
    let ghost all = order@;
    assert(all.take(0).len() == 0);
    for i in 0..items.len()
        invariant
            all == text::views(items@),
            f == point_source(c, d),
            forall|t: Seq<char>| #[trigger]
                csv_rows@.contains_key(t) <==> csv_waypoints(c).contains(t),
            forall|t: Seq<char>| #[trigger]
                csv_rows@.contains_key(t) ==> csv_rows@[t] == c[first_index(
                    csv_waypoints(c),
                    t,
                )].row,
            forall|t: Seq<char>| #[trigger]
                db_rows@.contains_key(t) <==> db_waypoints(d).contains(t),
            forall|t: Seq<char>| #[trigger]
                db_rows@.contains_key(t) ==> db_rows@[t] == d[first_index(
                    db_waypoints(d),
                    t,
                )].row,
            out@ == text::collect(all.take(i as int), f),
    {
        proof {
            text::lemma_collect_step(all, f, i as int);
            assert(all[i as int] == items@[i as int]@);
        }
        match csv_rows.get(items[i].as_str()) {
            Some(row) => {
                out.push((RowSource::Csv, *row));
            },
            None => {
                assert(!csv_rows@.contains_key(all[i as int]));
                match db_rows.get(items[i].as_str()) {
                    Some(row) => {
                        out.push((RowSource::Db, *row));
                    },
                    None => {
                        assert(!db_rows@.contains_key(all[i as int]));
                    },
                }
            },
        }
    }
    assert(all.take(items@.len() as int) == all);
    let ghost head = out@;
    assert(c.take(0).len() == 0);
    assert(head + text::collect(c.take(0), g) =~= head);
    for i in 0..csv.len()
        invariant
            c == text::views(csv@),
            g == left_over(order@),
            order.wf(),
            out@ == head + text::collect(c.take(i as int), g),
    {
        proof {
            text::lemma_collect_step(c, g, i as int);
            assert(c[i as int] == csv@[i as int]@);
        }
        if !order.contains(csv[i].waypoint.as_str()) {
            out.push((RowSource::Csv, csv[i].row));
            assert(out@ =~= head + text::collect(c.take(i + 1), g));
        }
    }
    assert(c.take(csv@.len() as int) == c);
    out
}

proof fn lemma_collect_len<A, B>(s: Seq<A>, f: spec_fn(int, A) -> Option<B>)
    ensures
        text::collect(s, f).len() <= s.len(),
    decreases s.len(),
{
    if s.len() > 0 {
        lemma_collect_len(s.drop_last(), f);
    }
}

/// A sequence without duplicates whose items all lie in one of two sequences is no longer than
/// both together.
proof fn lemma_members_bound(s: Seq<Seq<char>>, a: Seq<Seq<char>>, b: Seq<Seq<char>>)
    requires
        s.no_duplicates(),
        forall|t: Seq<char>| #[trigger] s.contains(t) ==> a.contains(t) || b.contains(t),
    ensures
        s.len() <= a.len() + b.len(),
{
    let whole = a + b;
    s.unique_seq_to_set();
    assert(s.to_set().subset_of(whole.to_set())) by {
        assert forall|t: Seq<char>| #[trigger] s.to_set().contains(t) implies whole.to_set().contains(
            t,
        ) by {
            assert(s.contains(t));
            if a.contains(t) {
                let k = choose|k: int| 0 <= k < a.len() && a[k] == t;
                assert(whole[k] == t);
            } else {
                let k = choose|k: int| 0 <= k < b.len() && b[k] == t;
                assert(whole[a.len() + k] == t);
            }
        }
    }
    vstd::set_lib::lemma_len_subset(s.to_set(), whole.to_set());
    vstd::seq_lib::seq_to_set_is_finite(whole);
    whole.lemma_cardinality_of_set();
}

/// A merged route has at most the points of both sources and once more those of the route file.
pub proof fn lemma_merged_sources_len(
    csv: Seq<CsvRoutePoint<Seq<char>>>,
    db: Seq<DbRoutePoint<Seq<char>>>,
)
    ensures
        merged_sources(csv, db).len() <= csv.len() + db.len() + csv.len(),
{
    let d = db_waypoints(db);
    let c = csv_waypoints(csv);
    let order = merged_order(d, c);
    lemma_collect_len(order, point_source(csv, db));
    lemma_collect_len(csv, left_over(order));
    merged_order_has_no_duplicates(d, c);
    if overlap(d, c) {
        merged_order_members(d, c);
    }
    lemma_members_bound(order, d, c);
}

fn is_overlap(db: &Vec<DbRoutePoint>, csv_index: &StringHashMap<usize>, Ghost(csv): Ghost<
    Seq<Seq<char>>,
>) -> (r: bool)
    requires
        forall|t: Seq<char>| #[trigger] csv_index@.contains_key(t) <==> csv.contains(t),
    ensures
        r == overlap(db_waypoints(text::views(db@)), csv),
{
    let ghost all = db_waypoints(text::views(db@));
    for i in 0..db.len()
        invariant
            all == db_waypoints(text::views(db@)),
            forall|t: Seq<char>| #[trigger] csv_index@.contains_key(t) <==> csv.contains(t),
            forall|k: int| 0 <= k < i ==> !csv.contains(#[trigger] all[k]),
    {
        assert(all[i as int] == db@[i as int].waypoint@);
        if csv_index.contains_key(db[i].waypoint.as_str()) {
            assert(csv.contains(all[i as int]));
            return true;
        }
    }
    false
}

/// Plans the rows of one route.
fn push_route_plan(out: &mut Vec<RowPlanEntry>, csv: &Vec<CsvRoutePoint>, db: &Vec<DbRoutePoint>) -> (merged:
    bool)
    requires
        csv@.len() > 0,
        numberable(text::views(csv@), text::views(db@)),
    ensures
        final(out)@ == old(out)@ + route_plan(text::views(csv@), text::views(db@)),
        merged == overlap(
            db_waypoints(text::views(db@)),
            csv_waypoints(text::views(csv@)),
        ),
{
    let ghost c = text::views(csv@);
    let ghost d = text::views(db@);
    let index: StringHashMap<usize> = index_waypoints(csv);
    if !is_overlap(db, &index, Ghost(csv_waypoints(c))) {
        push_appended(out, csv, db);
        return false;
    }
    let sources: Vec<(RowSource, usize)> = list_merged_sources(csv, db);
    let ghost before = out@;
    let ghost plan = numbered(sources@);
    proof {
        lemma_merged_sources_len(c, d);
    }
    assert(out@ =~= before + plan.take(0));
    for i in 0..sources.len()
        invariant
            plan == numbered(sources@),
            FIRST_SEQNO + SEQNO_STEP * sources@.len() <= i64::MAX,
            out@ == before + plan.take(i as int),
    {
        let number: i64 = FIRST_SEQNO + i as i64 * SEQNO_STEP;
        out.push(RowPlanEntry { source: sources[i].0, row: sources[i].1, seqno: Some(number) });
        assert(out@ =~= before + plan.take(i + 1));
    }
    assert(plan.take(plan.len() as int) == plan);
    true
}

/// How the rows of all routes are merged.
pub struct AirwayMergePlan {
    pub rows: Vec<RowPlanEntry>,
    pub routes_to_delete: Vec<String>,
    pub routes_with_missing: Vec<String>,
}

/// The points of a route in the route file.
pub open spec fn csv_at(map: KeyedLists<CsvRoutePoint>, route: Seq<char>) -> Seq<
    CsvRoutePoint<Seq<char>>,
> {
    text::views(map.at(route))
}

/// The points of a route in the database.
pub open spec fn db_at(map: KeyedLists<DbRoutePoint>, route: Seq<char>) -> Seq<
    DbRoutePoint<Seq<char>>,
> {
    text::views(map.at(route))
}

/// The plan of each route.
pub open spec fn route_planner(
    csv_map: KeyedLists<CsvRoutePoint>,
    db_map: KeyedLists<DbRoutePoint>,
) -> spec_fn(int, Seq<char>) -> Seq<RowPlanEntry> {
    |i: int, route: Seq<char>| route_plan(csv_at(csv_map, route), db_at(db_map, route))
}

/// The choice of the routes that are merged: those with points in both sources, one in common.
pub open spec fn merged_route(
    csv_map: KeyedLists<CsvRoutePoint>,
    db_map: KeyedLists<DbRoutePoint>,
) -> spec_fn(int, Seq<char>) -> Option<Seq<char>> {
    |i: int, route: Seq<char>|
        if overlap(
            db_waypoints(db_at(db_map, route)),
            csv_waypoints(csv_at(csv_map, route)),
        ) {
            Some(route)
        } else {
            None
        }
}

/// Plans the rows of all routes: every route is replaced, those with a common point are merged.
pub fn build_airway_merge_plan(
    route_order: &Vec<String>,
    csv_map: &KeyedLists<CsvRoutePoint>,
    db_map: &KeyedLists<DbRoutePoint>,
) -> (r: AirwayMergePlan)
    requires
        csv_map.wf(),
        db_map.wf(),
        forall|i: int|
            0 <= i < route_order@.len() ==> numberable(
                csv_at(*csv_map, #[trigger] route_order@[i]@),
                db_at(*db_map, route_order@[i]@),
            ),
    ensures
        r.rows@ == text::flat_collect(
            text::views(route_order@),
            route_planner(*csv_map, *db_map),
        ),
        text::views(r.routes_to_delete@) == text::views(route_order@),
        text::views(r.routes_with_missing@) == text::collect(
            text::views(route_order@),
            merged_route(*csv_map, *db_map),
        ),
{
    let ghost all = text::views(route_order@);
    let ghost f = route_planner(*csv_map, *db_map);
    let ghost g = merged_route(*csv_map, *db_map);
    let mut rows: Vec<RowPlanEntry> = Vec::new();
    let mut routes_to_delete: Vec<String> = Vec::new();
    let mut routes_with_missing: Vec<String> = Vec::new();
    let none: Vec<DbRoutePoint> = Vec::new();
    assert(all.take(0).len() == 0);
    assert(text::views(routes_to_delete@) =~= all.take(0));
    assert(text::views(routes_with_missing@) =~= text::collect(all.take(0), g));
    for i in 0..route_order.len()
        invariant
            csv_map.wf(),
            db_map.wf(),
            none@.len() == 0,
            forall|i: int|
                0 <= i < route_order@.len() ==> numberable(
                    csv_at(*csv_map, #[trigger] route_order@[i]@),
                    db_at(*db_map, route_order@[i]@),
                ),
            all == text::views(route_order@),
            f == route_planner(*csv_map, *db_map),
            g == merged_route(*csv_map, *db_map),
            rows@ == text::flat_collect(all.take(i as int), f),
            text::views(routes_to_delete@) == all.take(i as int),
            text::views(routes_with_missing@) == text::collect(all.take(i as int), g),
    {
        let route: &str = route_order[i].as_str();
        let ghost c = csv_at(*csv_map, route@);
        let ghost d = db_at(*db_map, route@);
        assert(numberable(c, d));
        let marked: String = route_order[i].clone();
        proof {
            text::lemma_flat_collect_step(all, f, i as int);
            text::lemma_collect_step(all, g, i as int);
            assert(all[i as int] == route@);
            text::lemma_views_push(routes_to_delete@, marked);
        }
        routes_to_delete.push(marked);
        assert(text::views(routes_to_delete@) =~= all.take(i + 1));
        let csv: Option<&Vec<CsvRoutePoint>> = csv_map.get(route);
        let filled: bool = match csv {
            Some(points) => points.len() > 0,
            None => false,
        };
        if filled {
            match csv {
                Some(points) => {
                    let merged: bool = match db_map.get(route) {
                        Some(db) => push_route_plan(&mut rows, points, db),
                        None => {
                            assert(text::views(none@) =~= d);
                            push_route_plan(&mut rows, points, &none)
                        },
                    };
                    if merged {
                        let name: String = route_order[i].clone();
                        proof {
                            text::lemma_views_push(routes_with_missing@, name);
                        }
                        routes_with_missing.push(name);
                    }
                },
                None => {},
            }
        } else {
            assert(c.len() == 0);
            assert(csv_waypoints(c).len() == 0);
            assert(f(i as int, route@) =~= seq![]);
            assert(rows@ =~= text::flat_collect(all.take(i + 1), f));
        }
    }
    assert(all.take(route_order@.len() as int) == all);
    AirwayMergePlan { rows, routes_to_delete, routes_with_missing }
}

/// The rows of a merged route are numbered upwards without a gap.
pub proof fn merged_rows_are_numbered_upwards(
    csv: Seq<CsvRoutePoint<Seq<char>>>,
    db: Seq<DbRoutePoint<Seq<char>>>,
    i: int,
)
    requires
        numberable(csv, db),
        overlap(db_waypoints(db), csv_waypoints(csv)),
        0 <= i < route_plan(csv, db).len(),
    ensures
        route_plan(csv, db)[i].seqno == Some((FIRST_SEQNO + SEQNO_STEP * i) as i64),
        FIRST_SEQNO + SEQNO_STEP * i <= i64::MAX,
{
    lemma_merged_sources_len(csv, db);
    let k = choose|k: int|
        0 <= k < db_waypoints(db).len() && csv_waypoints(csv).contains(
            #[trigger] db_waypoints(db)[k],
        );
    assert(csv_waypoints(csv).len() > 0);
}

/// No waypoint of the route file is lost: each one has a row of the route file in the plan.
pub proof fn planned_route_covers_file(
    csv: Seq<CsvRoutePoint<Seq<char>>>,
    db: Seq<DbRoutePoint<Seq<char>>>,
    k: int,
)
    requires
        0 <= k < csv.len(),
    ensures
        exists|i: int, j: int|
            0 <= i < route_plan(csv, db).len() && 0 <= j < csv.len() && #[trigger] route_plan(
                csv,
                db,
            )[i].source == RowSource::Csv && route_plan(csv, db)[i].row == csv[j].row && (
            #[trigger] csv[j]).waypoint == csv[k].waypoint,
{
    let plan = route_plan(csv, db);
    let d = db_waypoints(db);
    let c = csv_waypoints(csv);
    let t = csv[k].waypoint;
    assert(c[k] == t);
    if overlap(d, c) {
        let order = merged_order(d, c);
        let f = point_source(csv, db);
        let g = left_over(order);
        let head = text::collect(order, f);
        let tail = text::collect(csv, g);
        if order.contains(t) {
            let m = choose|m: int| 0 <= m < order.len() && order[m] == t;
            lemma_first_index(c, t);
            let j = first_index(c, t);
            lemma_collected(order, f, m, (RowSource::Csv, csv[j].row));
            let i = choose|i: int|
                0 <= i < head.len() && head[i] == (RowSource::Csv, csv[j].row);
            assert(merged_sources(csv, db)[i] == (RowSource::Csv, csv[j].row));
            assert(plan[i].source == RowSource::Csv && plan[i].row == csv[j].row);
            assert(csv[j].waypoint == t);
        } else {
            lemma_collected(csv, g, k, (RowSource::Csv, csv[k].row));
            let i = choose|i: int|
                0 <= i < tail.len() && tail[i] == (RowSource::Csv, csv[k].row);
            assert(merged_sources(csv, db)[head.len() + i] == (RowSource::Csv, csv[k].row));
            assert(plan[head.len() + i].source == RowSource::Csv);
        }
    } else {
        assert(plan[db.len() + k].source == RowSource::Csv);
    }
}

proof fn lemma_collected<A, B>(s: Seq<A>, f: spec_fn(int, A) -> Option<B>, k: int, b: B)
    requires
        0 <= k < s.len(),
        f(k, s[k]) == Some(b),
    ensures
        exists|i: int| 0 <= i < text::collect(s, f).len() && text::collect(s, f)[i] == b,
    decreases s.len(),
{
    let init = s.drop_last();
    let whole = text::collect(s, f);
    if k == s.len() - 1 {
        assert(whole[whole.len() - 1] == b);
    } else {
        lemma_collected(init, f, k, b);
        let i = choose|i: int|
            0 <= i < text::collect(init, f).len() && text::collect(init, f)[i] == b;
        assert(whole[i] == b);
    }
}

/// The largest sequence number of stored points is one of theirs and none is larger; without stored
/// points it is where numbering starts.
pub proof fn the_largest_sequence_number_is_reached(db: Seq<DbRoutePoint<Seq<char>>>, i: int)
    ensures
        db.len() == 0 ==> max_seqno(db) == 1000,
        0 <= i < db.len() ==> db[i].seqno <= max_seqno(db),
        db.len() > 0 ==> exists|k: int|
            0 <= k < db.len() && #[trigger] db[k].seqno == max_seqno(db),
    decreases db.len(),
{
    lemma_max_seqno(db);
    if 0 <= i < db.len() && db.len() > 1 {
        the_largest_sequence_number_is_reached(db.drop_last(), i);
        if i < db.len() - 1 {
            assert(db.drop_last()[i] == db[i]);
        }
    }
}

/// A route that shares no point with the stored one is put behind it: the stored rows stay as they
/// are, and the rows of the file follow in steps of five behind the largest number.
pub proof fn a_foreign_route_is_put_behind_the_stored_one(
    csv: Seq<CsvRoutePoint<Seq<char>>>,
    db: Seq<DbRoutePoint<Seq<char>>>,
    i: int,
)
    requires
        csv.len() > 0,
        numberable(csv, db),
        forall|a: int, b: int|
            0 <= a < csv.len() && 0 <= b < db.len() ==> (#[trigger] csv[a]).waypoint != (
            #[trigger] db[b]).waypoint,
    ensures
        route_plan(csv, db).len() == db.len() + csv.len(),
        0 <= i < db.len() ==> route_plan(csv, db)[i] == (RowPlanEntry {
            source: RowSource::Db,
            row: db[i].row,
            seqno: None,
        }),
        0 <= i < csv.len() ==> {
            let entry = route_plan(csv, db)[db.len() + i];
            &&& entry.source == RowSource::Csv
            &&& entry.row == csv[i].row
            &&& entry.seqno is Some
            &&& entry.seqno->0 == max_seqno(db) + 5 * (i + 1)
        },
{
    let d = db_waypoints(db);
    let c = csv_waypoints(csv);
    assert(!overlap(d, c)) by {
        if overlap(d, c) {
            let b = choose|b: int| 0 <= b < d.len() && c.contains(#[trigger] d[b]);
            let a = choose|a: int| 0 <= a < c.len() && c[a] == d[b];
            assert(csv[a].waypoint == db[b].waypoint);
        }
    }
    if 0 <= i < csv.len() {
        lemma_max_seqno(db);
        if db.len() > 0 {
            let k = choose|k: int| 0 <= k < db.len() && #[trigger] db[k].seqno == max_seqno(db);
            assert(db[k].seqno + SEQNO_STEP * csv.len() <= i64::MAX);
        }
        assert(SEQNO_STEP * (i + 1) <= SEQNO_STEP * csv.len());
    }
}

/// A route that shares a point with the stored one is numbered anew, from a thousand in steps of
/// five.
pub proof fn a_shared_route_is_numbered_anew(
    csv: Seq<CsvRoutePoint<Seq<char>>>,
    db: Seq<DbRoutePoint<Seq<char>>>,
    a: int,
    b: int,
    i: int,
)
    requires
        numberable(csv, db),
        0 <= a < csv.len(),
        0 <= b < db.len(),
        csv[a].waypoint == db[b].waypoint,
        0 <= i < route_plan(csv, db).len(),
    ensures
        route_plan(csv, db)[i].seqno is Some,
        route_plan(csv, db)[i].seqno->0 == 1000 + 5 * i,
        route_plan(csv, db).len() == merged_sources(csv, db).len(),
        route_plan(csv, db)[i].source == merged_sources(csv, db)[i].0,
        route_plan(csv, db)[i].row == merged_sources(csv, db)[i].1,
{
    assert(csv_waypoints(csv)[a] == db_waypoints(db)[b]);
    assert(csv_waypoints(csv).contains(db_waypoints(db)[b]));
    assert(overlap(db_waypoints(db), csv_waypoints(csv)));
    merged_rows_are_numbered_upwards(csv, db, i);
}

/// A point that the file has comes from the file, from its first row there; one that only the stored
/// route has comes from its first stored row. Points of the file that the merged order does not have
/// follow.
pub proof fn merged_points_come_from_the_file_first(
    csv: Seq<CsvRoutePoint<Seq<char>>>,
    db: Seq<DbRoutePoint<Seq<char>>>,
    k: int,
)
    requires
        overlap(db_waypoints(db), csv_waypoints(csv)),
        0 <= k < merged_order(db_waypoints(db), csv_waypoints(csv)).len(),
    ensures
        ({
            let t = merged_order(db_waypoints(db), csv_waypoints(csv))[k];
            let c = csv_waypoints(csv);
            let d = db_waypoints(db);
            &&& k < merged_sources(csv, db).len()
            &&& c.contains(t) ==> merged_sources(csv, db)[k] == (
                RowSource::Csv,
                csv[first_index(c, t)].row,
            )
            &&& !c.contains(t) ==> d.contains(t) && merged_sources(csv, db)[k] == (
                RowSource::Db,
                db[first_index(d, t)].row,
            )
        }),
{
    let order = merged_order(db_waypoints(db), csv_waypoints(csv));
    merged_order_members(db_waypoints(db), csv_waypoints(csv));
    assert forall|i: int| 0 <= i < order.len() implies point_source(csv, db)(i, #[trigger] order[i])
        is Some by {
        assert(order.contains(order[i]));
    }
    lemma_collect_everything(order, point_source(csv, db));
}

proof fn lemma_collect_everything<A, B>(s: Seq<A>, f: spec_fn(int, A) -> Option<B>)
    requires
        forall|i: int| 0 <= i < s.len() ==> f(i, #[trigger] s[i]) is Some,
    ensures
        text::collect(s, f).len() == s.len(),
        forall|i: int| 0 <= i < s.len() ==> Some(text::collect(s, f)[i]) == f(i, #[trigger] s[i]),
    decreases s.len(),
{
    if s.len() > 0 {
        let init = s.drop_last();
        assert forall|i: int| 0 <= i < init.len() implies f(i, #[trigger] init[i]) is Some by {
            assert(init[i] == s[i]);
        }
        lemma_collect_everything(init, f);
        assert(f(s.len() - 1, s[s.len() - 1]) is Some);
        assert forall|i: int| 0 <= i < s.len() implies Some(text::collect(s, f)[i]) == f(
            i,
            #[trigger] s[i],
        ) by {
            if i < s.len() - 1 {
                assert(init[i] == s[i]);
            }
        }
    }
}

/// Between two neighbouring shared points the points of the file between them come in, in the
/// direction in which the stored route runs.
pub proof fn points_between_shared_neighbours_come_in(
    db: Seq<Seq<char>>,
    csv: Seq<Seq<char>>,
    i: int,
    n: int,
    k: int,
)
    requires
        0 <= i < n < db.len(),
        csv.contains(db[i]),
        csv.contains(db[n]),
        forall|j: int| i < j < n ==> !csv.contains(#[trigger] db[j]),
    ensures
        ({
            let from = first_index(csv, db[i]);
            let to = first_index(csv, db[n]);
            let s = stretch(db, csv, i);
            &&& from < to ==> s.len() == to - from - 1 && (0 <= k < s.len() ==> s[k] == csv[from + 1
                + k])
            &&& to < from ==> s.len() == from - to - 1 && (0 <= k < s.len() ==> s[k] == csv[from - 1
                - k])
            &&& from == to ==> s.len() == 0
        }),
        stretched(db, csv)(i, db[i])[0] == db[i],
        stretched(db, csv)(i, db[i]).skip(1) == stretch(db, csv, i),
{
    lemma_next_shared(db, csv, i, n);
    lemma_first_index(csv, db[i]);
    lemma_first_index(csv, db[n]);
    assert(stretched(db, csv)(i, db[i]).skip(1) =~= stretch(db, csv, i));
}

proof fn lemma_next_shared(db: Seq<Seq<char>>, csv: Seq<Seq<char>>, i: int, n: int)
    requires
        0 <= i < n < db.len(),
        csv.contains(db[n]),
        forall|j: int| i < j < n ==> !csv.contains(#[trigger] db[j]),
    ensures
        next_common(db, csv, i) == n,
    decreases n - i,
{
    if i + 1 < n {
        assert(!csv.contains(db[i + 1]));
        lemma_next_shared(db, csv, i + 1, n);
    }
}

/// A route without points in the file is not planned.
pub proof fn a_route_without_points_in_the_file_is_not_planned(
    db: Seq<DbRoutePoint<Seq<char>>>,
)
    ensures
        route_plan(seq![], db).len() == 0,
{
}

/// Every field of a `CsvRoutePoint` is seen under its own name.
pub proof fn every_field_of_csv_route_point_is_seen(it: CsvRoutePoint)
    ensures
        it@.waypoint == it.waypoint@,
        it@.row == it.row,
{
}

/// Every field of a `DbRoutePoint` is seen under its own name.
pub proof fn every_field_of_db_route_point_is_seen(it: DbRoutePoint)
    ensures
        it@.waypoint == it.waypoint@,
        it@.row == it.row,
        it@.seqno == it.seqno,
{
}

} // verus!
