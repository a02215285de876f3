//! Assembling the final rows of the airway table.

use crate::double::Point;
use crate::enroute::airway_points;
use crate::enroute::airway_points::AirwayCoordCache;
use crate::enroute::airway_rows;
use crate::enroute::airway_rows::AirwayRecord;
use crate::enroute::airways::{AirwayCodeType, ParsedAirwayCsvRow};
use crate::enroute::route_merge;
use crate::enroute::route_merge::{
    AirwayMergePlan, CsvRoutePoint, DbRoutePoint, RowPlanEntry, RowSource,
};
use crate::keyed;
use crate::keyed::{KeyedLists, TextSet};
use crate::matchers::IcaoCodeResolver;
use crate::sorting;
use crate::sorting::SortKey;
use crate::text;
use crate::text::Blank;
use vstd::prelude::*;

verus! {

/// The routes of the rows.
pub open spec fn routes_of(rows: Seq<AirwayRecord<Seq<char>>>) -> Seq<Seq<char>> {
    rows.map_values(|row: AirwayRecord<Seq<char>>| row.route_identifier)
}

/// The routes of the rows, each once, in order of appearance.
pub open spec fn unique_routes(rows: Seq<AirwayRecord<Seq<char>>>) -> Seq<Seq<char>> {
    keyed::distinct(routes_of(rows))
}

/// Lists the routes of the rows, each once.
pub fn list_unique_routes(rows: &Vec<AirwayRecord>) -> (r: TextSet)
    ensures
        r.wf(),
        r@ == unique_routes(text::views(rows@)),
{
    let ghost all = routes_of(text::views(rows@));
    let mut r: TextSet = TextSet::new();
    assert(all.take(0).len() == 0);
    for i in 0..rows.len()
        invariant
            r.wf(),
            all == routes_of(text::views(rows@)),
            r@ == keyed::distinct(all.take(i as int)),
    {
        r.insert(rows[i].route_identifier.as_str());
        assert(all.take(i + 1).drop_last() == all.take(i as int));
        assert(all[i as int] == rows@[i as int].route_identifier@);
    }
    assert(all.take(rows@.len() as int) == all);
    r
}

/// The choice of the points of a route among rows of the route file.
pub open spec fn csv_point_chooser(route: Seq<char>) -> spec_fn(
    int,
    AirwayRecord<Seq<char>>,
) -> Option<CsvRoutePoint<Seq<char>>> {
    |i: int, row: AirwayRecord<Seq<char>>|
        if row.route_identifier == route {
            Some(CsvRoutePoint { waypoint: row.waypoint_identifier, row: i as usize })
        } else {
            None
        }
}

/// The choice of the points of a route among rows of the database.
pub open spec fn db_point_chooser(route: Seq<char>) -> spec_fn(
    int,
    AirwayRecord<Seq<char>>,
) -> Option<DbRoutePoint<Seq<char>>> {
    |i: int, row: AirwayRecord<Seq<char>>|
        if row.route_identifier == route {
            Some(
                DbRoutePoint {
                    waypoint: row.waypoint_identifier,
                    row: i as usize,
                    seqno: row.seqno,
                },
            )
        } else {
            None
        }
}

/// The points of a route in the route file.
pub open spec fn csv_points(rows: Seq<AirwayRecord<Seq<char>>>, route: Seq<char>) -> Seq<
    CsvRoutePoint<Seq<char>>,
> {
    text::collect(rows, csv_point_chooser(route))
}

/// The points of a route in the database.
pub open spec fn db_points(rows: Seq<AirwayRecord<Seq<char>>>, route: Seq<char>) -> Seq<
    DbRoutePoint<Seq<char>>,
> {
    text::collect(rows, db_point_chooser(route))
}

fn index_csv_routes(rows: &Vec<AirwayRecord>) -> (r: KeyedLists<CsvRoutePoint>)
    ensures
        r.wf(),
        forall|route: Seq<char>| #[trigger]
            route_merge::csv_at(r, route) == csv_points(text::views(rows@), route),
{
    let ghost all = text::views(rows@);
    let mut r: KeyedLists<CsvRoutePoint> = KeyedLists::new();
    assert(all.take(0).len() == 0);
    assert forall|route: Seq<char>| #[trigger]
        route_merge::csv_at(r, route) == csv_points(all.take(0), route) by {
        assert(r.at(route).len() == 0);
        assert(route_merge::csv_at(r, route) =~= seq![]);
    }
    for i in 0..rows.len()
        invariant
            r.wf(),
            all == text::views(rows@),
            forall|route: Seq<char>| #[trigger]
                route_merge::csv_at(r, route) == csv_points(all.take(i as int), route),
    {
        let ghost before = r;
        let point = CsvRoutePoint { waypoint: rows[i].waypoint_identifier.clone(), row: i };
        let ghost key = rows@[i as int].route_identifier@;
        let ghost model = point@;
        proof {
            text::lemma_views_push(r.at(key), point);
        }
        r.push(rows[i].route_identifier.as_str(), point);
        assert forall|route: Seq<char>| #[trigger]
            route_merge::csv_at(r, route) == csv_points(all.take(i + 1), route) by {
            text::lemma_collect_step(all, csv_point_chooser(route), i as int);
            assert(all[i as int] == rows@[i as int]@);
            assert(route_merge::csv_at(before, route) == csv_points(all.take(i as int), route));
            if route != key {
                assert(r.at(route) == before.at(route));
            }
        }
    }
    assert(all.take(rows@.len() as int) == all);
    r
}

fn index_db_routes(rows: &Vec<AirwayRecord>) -> (r: KeyedLists<DbRoutePoint>)
    ensures
        r.wf(),
        forall|route: Seq<char>| #[trigger]
            route_merge::db_at(r, route) == db_points(text::views(rows@), route),
{
    let ghost all = text::views(rows@);
    let mut r: KeyedLists<DbRoutePoint> = KeyedLists::new();
    assert(all.take(0).len() == 0);
    assert forall|route: Seq<char>| #[trigger]
        route_merge::db_at(r, route) == db_points(all.take(0), route) by {
        assert(r.at(route).len() == 0);
        assert(route_merge::db_at(r, route) =~= seq![]);
    }
    for i in 0..rows.len()
        invariant
            r.wf(),
            all == text::views(rows@),
            forall|route: Seq<char>| #[trigger]
                route_merge::db_at(r, route) == db_points(all.take(i as int), route),
    {
        let ghost before = r;
        let point = DbRoutePoint {
            waypoint: rows[i].waypoint_identifier.clone(),
            row: i,
            seqno: rows[i].seqno,
        };
        let ghost key = rows@[i as int].route_identifier@;
        let ghost model = point@;
        proof {
            text::lemma_views_push(r.at(key), point);
        }
        r.push(rows[i].route_identifier.as_str(), point);
        assert forall|route: Seq<char>| #[trigger]
            route_merge::db_at(r, route) == db_points(all.take(i + 1), route) by {
            text::lemma_collect_step(all, db_point_chooser(route), i as int);
            assert(all[i as int] == rows@[i as int]@);
            assert(route_merge::db_at(before, route) == db_points(all.take(i as int), route));
            if route != key {
                assert(r.at(route) == before.at(route));
            }
        }
    }
    assert(all.take(rows@.len() as int) == all);
    r
}

/// The plan of each route, from the rows of both sources.
pub open spec fn row_planner(
    processed: Seq<AirwayRecord<Seq<char>>>,
    db_rows: Seq<AirwayRecord<Seq<char>>>,
) -> spec_fn(int, Seq<char>) -> Seq<RowPlanEntry> {
    |i: int, route: Seq<char>|
        route_merge::route_plan(csv_points(processed, route), db_points(db_rows, route))
}

/// The plan of all routes.
pub open spec fn row_plan(
    processed: Seq<AirwayRecord<Seq<char>>>,
    db_rows: Seq<AirwayRecord<Seq<char>>>,
) -> Seq<RowPlanEntry> {
    text::flat_collect(unique_routes(processed), row_planner(processed, db_rows))
}

/// The choice of the routes that have a point in both sources.
pub open spec fn shared_route(
    processed: Seq<AirwayRecord<Seq<char>>>,
    db_rows: Seq<AirwayRecord<Seq<char>>>,
) -> spec_fn(int, Seq<char>) -> Option<Seq<char>> {
    |i: int, route: Seq<char>|
        if route_merge::overlap(
            route_merge::db_waypoints(db_points(db_rows, route)),
            route_merge::csv_waypoints(csv_points(processed, route)),
        ) {
            Some(route)
        } else {
            None
        }
}

/// The row that an entry of the plan stands for.
pub open spec fn planned_row(
    processed: Seq<AirwayRecord<Seq<char>>>,
    db_rows: Seq<AirwayRecord<Seq<char>>>,
    entry: RowPlanEntry,
) -> AirwayRecord<Seq<char>> {
    let row = match entry.source {
        RowSource::Csv => processed[entry.row as int],
        RowSource::Db => db_rows[entry.row as int],
    };
    match entry.seqno {
        Some(seqno) => AirwayRecord { seqno, ..row },
        None => row,
    }
}

/// The rows of both sources merged, as planned.
pub open spec fn merged_rows(
    processed: Seq<AirwayRecord<Seq<char>>>,
    db_rows: Seq<AirwayRecord<Seq<char>>>,
) -> Seq<AirwayRecord<Seq<char>>> {
    row_plan(processed, db_rows).map_values(
        |entry: RowPlanEntry| planned_row(processed, db_rows, entry),
    )
}

/// Whether all sequence numbers that `csv_count` rows of the route file can lead to fit.
pub open spec fn seqnos_fit(csv_count: nat, db_rows: Seq<AirwayRecord<Seq<char>>>) -> bool {
    &&& route_merge::FIRST_SEQNO + route_merge::SEQNO_STEP * (3 * csv_count + db_rows.len())
        <= i64::MAX
    &&& forall|i: int|
        0 <= i < db_rows.len() ==> (#[trigger] db_rows[i]).seqno + route_merge::SEQNO_STEP * (2
            * csv_count) <= i64::MAX
}

proof fn lemma_csv_points(rows: Seq<AirwayRecord<Seq<char>>>, route: Seq<char>)
    requires
        rows.len() <= usize::MAX,
    ensures
        csv_points(rows, route).len() <= rows.len(),
        forall|k: int|
            0 <= k < csv_points(rows, route).len() ==> (#[trigger] csv_points(rows, route)[k]).row
                < rows.len(),
    decreases rows.len(),
{
    if rows.len() > 0 {
        let init = rows.drop_last();
        lemma_csv_points(init, route);
        assert forall|k: int| 0 <= k < csv_points(rows, route).len() implies (
        #[trigger] csv_points(rows, route)[k]).row < rows.len() by {
            if k < csv_points(init, route).len() {
                assert(csv_points(rows, route)[k] == csv_points(init, route)[k]);
            }
        }
    }
}

proof fn lemma_db_points(rows: Seq<AirwayRecord<Seq<char>>>, route: Seq<char>)
    requires
        rows.len() <= usize::MAX,
    ensures
        db_points(rows, route).len() <= rows.len(),
        forall|k: int|
            0 <= k < db_points(rows, route).len() ==> {
                let point = #[trigger] db_points(rows, route)[k];
                point.row < rows.len() && rows[point.row as int].seqno == point.seqno
            },
    decreases rows.len(),
{
    if rows.len() > 0 {
        let init = rows.drop_last();
        lemma_db_points(init, route);
        assert forall|k: int| 0 <= k < db_points(rows, route).len() implies {
            let point = #[trigger] db_points(rows, route)[k];
            point.row < rows.len() && rows[point.row as int].seqno == point.seqno
        } by {
            if k < db_points(init, route).len() {
                assert(db_points(rows, route)[k] == db_points(init, route)[k]);
            }
        }
    }
}

/// What an entry of the plan of a route can be.
spec fn entry_fits(
    entry: RowPlanEntry,
    csv_count: int,
    db_rows: Seq<AirwayRecord<Seq<char>>>,
) -> bool {
    &&& match entry.source {
        RowSource::Csv => entry.row < csv_count && entry.seqno is Some,
        RowSource::Db => entry.row < db_rows.len(),
    }
    &&& match entry.seqno {
        Some(seqno) => seqno + route_merge::SEQNO_STEP * csv_count <= i64::MAX,
        None => true,
    }
}

proof fn lemma_collect_point_source(
    order: Seq<Seq<char>>,
    csv: Seq<CsvRoutePoint<Seq<char>>>,
    db: Seq<DbRoutePoint<Seq<char>>>,
    csv_count: int,
    db_count: int,
)
    requires
        forall|k: int| 0 <= k < csv.len() ==> (#[trigger] csv[k]).row < csv_count,
        forall|k: int| 0 <= k < db.len() ==> (#[trigger] db[k]).row < db_count,
    ensures
        forall|k: int|
            0 <= k < text::collect(order, route_merge::point_source(csv, db)).len() ==> {
                let source = #[trigger] text::collect(order, route_merge::point_source(csv, db))[k];
                match source.0 {
                    RowSource::Csv => source.1 < csv_count,
                    RowSource::Db => source.1 < db_count,
                }
            },
    decreases order.len(),
{
    let f = route_merge::point_source(csv, db);
    if order.len() > 0 {
        let init = order.drop_last();
        lemma_collect_point_source(init, csv, db, csv_count, db_count);
        let t = order.last();
        route_merge::lemma_first_index(route_merge::csv_waypoints(csv), t);
        route_merge::lemma_first_index(route_merge::db_waypoints(db), t);
        let whole = text::collect(order, f);
        let part = text::collect(init, f);
        assert forall|k: int| 0 <= k < whole.len() implies {
            let source = #[trigger] whole[k];
            match source.0 {
                RowSource::Csv => source.1 < csv_count,
                RowSource::Db => source.1 < db_count,
            }
        } by {
            if k < part.len() {
                assert(whole[k] == part[k]);
            }
        }
    }
}

proof fn lemma_collect_left_over(
    csv: Seq<CsvRoutePoint<Seq<char>>>,
    order: Seq<Seq<char>>,
    csv_count: int,
)
    requires
        forall|k: int| 0 <= k < csv.len() ==> (#[trigger] csv[k]).row < csv_count,
    ensures
        forall|k: int|
            0 <= k < text::collect(csv, route_merge::left_over(order)).len() ==> {
                let source = #[trigger] text::collect(csv, route_merge::left_over(order))[k];
                source.0 == RowSource::Csv && source.1 < csv_count
            },
    decreases csv.len(),
{
    let f = route_merge::left_over(order);
    if csv.len() > 0 {
        let init = csv.drop_last();
        assert forall|k: int| 0 <= k < init.len() implies (#[trigger] init[k]).row < csv_count by {
            assert(init[k] == csv[k]);
        }
        lemma_collect_left_over(init, order, csv_count);
        let whole = text::collect(csv, f);
        let part = text::collect(init, f);
        assert(csv[csv.len() - 1] == csv.last());
        assert forall|k: int| 0 <= k < whole.len() implies {
            let source = #[trigger] whole[k];
            source.0 == RowSource::Csv && source.1 < csv_count
        } by {
            if k < part.len() {
                assert(whole[k] == part[k]);
            }
        }
    }
}

proof fn lemma_route_plan_fits(
    processed: Seq<AirwayRecord<Seq<char>>>,
    db_rows: Seq<AirwayRecord<Seq<char>>>,
    route: Seq<char>,
)
    requires
        processed.len() <= usize::MAX,
        db_rows.len() <= usize::MAX,
        seqnos_fit(processed.len(), db_rows),
    ensures
        route_merge::numberable(csv_points(processed, route), db_points(db_rows, route)),
        forall|k: int|
            0 <= k < route_merge::route_plan(
                csv_points(processed, route),
                db_points(db_rows, route),
            ).len() ==> entry_fits(
                #[trigger] route_merge::route_plan(
                    csv_points(processed, route),
                    db_points(db_rows, route),
                )[k],
                processed.len() as int,
                db_rows,
            ),
{
    let csv = csv_points(processed, route);
    let db = db_points(db_rows, route);
    lemma_csv_points(processed, route);
    lemma_db_points(db_rows, route);
    assert(route_merge::numberable(csv, db)) by {
        assert forall|i: int| 0 <= i < db.len() implies #[trigger] db[i].seqno
            + route_merge::SEQNO_STEP * csv.len() <= i64::MAX by {
            let point = db[i];
            assert(db_rows[point.row as int].seqno == point.seqno);
        }
    }
    let plan = route_merge::route_plan(csv, db);
    if csv.len() > 0 {
        if route_merge::overlap(
            route_merge::db_waypoints(db),
            route_merge::csv_waypoints(csv),
        ) {
            let order = route_merge::merged_order(
                route_merge::db_waypoints(db),
                route_merge::csv_waypoints(csv),
            );
            lemma_collect_point_source(
                order,
                csv,
                db,
                processed.len() as int,
                db_rows.len() as int,
            );
            lemma_collect_left_over(csv, order, processed.len() as int);
            assert forall|k: int| 0 <= k < plan.len() implies entry_fits(
                #[trigger] plan[k],
                processed.len() as int,
                db_rows,
            ) by {
                route_merge::lemma_merged_sources_len(csv, db);
                let head = text::collect(order, route_merge::point_source(csv, db));
                let tail = text::collect(csv, route_merge::left_over(order));
                let source = route_merge::merged_sources(csv, db)[k];
                if k < head.len() {
                    assert(source == head[k]);
                } else {
                    assert(source == tail[k - head.len()]);
                }
            }
        } else {
            route_merge::lemma_max_seqno(db);
            assert forall|k: int| 0 <= k < plan.len() implies entry_fits(
                #[trigger] plan[k],
                processed.len() as int,
                db_rows,
            ) by {
                if k < db.len() {
                    assert(plan[k].row == db[k].row);
                } else {
                    let i = k - db.len();
                    assert(plan[k].row == csv[i].row);
                    if db.len() > 0 {
                        let m = choose|m: int|
                            0 <= m < db.len() && #[trigger] db[m].seqno
                                == route_merge::max_seqno(db);
                        let point = db[m];
                        assert(db_rows[point.row as int].seqno == point.seqno);
                    }
                }
            }
        }
    }
}

proof fn lemma_plan_fits(
    processed: Seq<AirwayRecord<Seq<char>>>,
    db_rows: Seq<AirwayRecord<Seq<char>>>,
    routes: Seq<Seq<char>>,
)
    requires
        processed.len() <= usize::MAX,
        db_rows.len() <= usize::MAX,
        seqnos_fit(processed.len(), db_rows),
    ensures
        forall|k: int|
            0 <= k < text::flat_collect(routes, row_planner(processed, db_rows)).len()
                ==> entry_fits(
                #[trigger] text::flat_collect(routes, row_planner(processed, db_rows))[k],
                processed.len() as int,
                db_rows,
            ),
    decreases routes.len(),
{
    let f = row_planner(processed, db_rows);
    if routes.len() > 0 {
        let init = routes.drop_last();
        lemma_plan_fits(processed, db_rows, init);
        lemma_route_plan_fits(processed, db_rows, routes.last());
        let whole = text::flat_collect(routes, f);
        let part = text::flat_collect(init, f);
        let tail = f(routes.len() - 1, routes.last());
        assert forall|k: int| 0 <= k < whole.len() implies entry_fits(
            #[trigger] whole[k],
            processed.len() as int,
            db_rows,
        ) by {
            if k < part.len() {
                assert(whole[k] == part[k]);
            } else {
                assert(whole[k] == tail[k - part.len()]);
            }
        }
    }
}

/// The merged rows and the routes that they replace.
pub struct MergedAirways {
    pub rows: Vec<AirwayRecord>,
    pub routes_to_delete: Vec<String>,
    pub routes_with_missing: Vec<String>,
}

/// Merges the rows of the route file into those of the database.
pub fn merge_airway_rows(processed: &Vec<AirwayRecord>, db_rows: &Vec<AirwayRecord>) -> (r:
    MergedAirways)
    requires
        seqnos_fit(processed@.len(), text::views(db_rows@)),
    ensures
        text::views(r.rows@) == merged_rows(text::views(processed@), text::views(db_rows@)),
        text::views(r.routes_to_delete@) == unique_routes(text::views(processed@)),
        text::views(r.routes_with_missing@) == text::collect(
            unique_routes(text::views(processed@)),
            shared_route(text::views(processed@), text::views(db_rows@)),
        ),
{
    let ghost p = text::views(processed@);
    let ghost d = text::views(db_rows@);
    let processed_count: usize = processed.len();
    let db_count: usize = db_rows.len();
    let routes: TextSet = list_unique_routes(processed);
    let csv_map: KeyedLists<CsvRoutePoint> = index_csv_routes(processed);
    let db_map: KeyedLists<DbRoutePoint> = index_db_routes(db_rows);
    let order: &Vec<String> = routes.items();
    proof {
        assert forall|i: int| 0 <= i < order@.len() implies route_merge::numberable(
            route_merge::csv_at(csv_map, #[trigger] order@[i]@),
            route_merge::db_at(db_map, order@[i]@),
        ) by {
            lemma_route_plan_fits(p, d, order@[i]@);
        }
        assert(route_merge::route_planner(csv_map, db_map) =~= row_planner(p, d));
        assert(route_merge::merged_route(csv_map, db_map) =~= shared_route(p, d));
        lemma_plan_fits(p, d, unique_routes(p));
    }
    let plan: AirwayMergePlan = route_merge::build_airway_merge_plan(order, &csv_map, &db_map);
    let ghost goal = merged_rows(p, d);
    let mut rows: Vec<AirwayRecord> = Vec::new();
    assert(text::views(rows@) =~= goal.take(0));
    for i in 0..plan.rows.len()
        invariant
            p == text::views(processed@),
            d == text::views(db_rows@),
            plan.rows@ == row_plan(p, d),
            goal == merged_rows(p, d),
            forall|k: int|
                0 <= k < plan.rows@.len() ==> entry_fits(
                    #[trigger] plan.rows@[k],
                    p.len() as int,
                    d,
                ),
            text::views(rows@) == goal.take(i as int),
    {
        let entry: RowPlanEntry = plan.rows[i];
        assert(entry_fits(plan.rows@[i as int], p.len() as int, d));
        let mut row: AirwayRecord = match entry.source {
            RowSource::Csv => {
                assert(p[entry.row as int] == processed@[entry.row as int]@);
                processed[entry.row].copy()
            },
            RowSource::Db => {
                assert(d[entry.row as int] == db_rows@[entry.row as int]@);
                db_rows[entry.row].copy()
            },
        };
        match entry.seqno {
            Some(seqno) => {
                row.seqno = seqno;
            },
            None => {},
        }
        proof {
            text::lemma_views_push(rows@, row);
            assert(row@ =~= planned_row(p, d, entry));
            assert(goal[i as int] == planned_row(p, d, entry));
            assert(goal.take(i + 1) =~= goal.take(i as int).push(row@));
        }
        rows.push(row);
    }
    assert(goal.take(goal.len() as int) == goal);
    MergedAirways {
        rows,
        routes_to_delete: plan.routes_to_delete,
        routes_with_missing: plan.routes_with_missing,
    }
}

/// The last row of a route in the route file.
pub open spec fn last_csv_row(
    rows: Seq<ParsedAirwayCsvRow<Seq<char>, u64>>,
    route: Seq<char>,
) -> Option<ParsedAirwayCsvRow<Seq<char>, u64>>
    decreases rows.len(),
{
    if rows.len() == 0 {
        None
    } else if rows.last().route_identifier == route {
        Some(rows.last())
    } else {
        last_csv_row(rows.drop_last(), route)
    }
}

/// The largest sequence number of a route, or the first one where it has no rows.
pub open spec fn route_max(rows: Seq<AirwayRecord<Seq<char>>>, route: Seq<char>) -> int {
    match known_max(rows, route) {
        Some(seqno) => seqno,
        None => route_merge::FIRST_SEQNO as int,
    }
}

/// The largest sequence number of a route that has rows.
pub open spec fn known_max(rows: Seq<AirwayRecord<Seq<char>>>, route: Seq<char>) -> Option<int>
    decreases rows.len(),
{
    if rows.len() == 0 {
        None
    } else {
        let rest = known_max(rows.drop_last(), route);
        let row = rows.last();
        if row.route_identifier != route {
            rest
        } else {
            match rest {
                Some(seqno) if seqno >= row.seqno => Some(seqno),
                _ => Some(row.seqno as int),
            }
        }
    }
}

/// Whether a route has a point.
pub open spec fn has_point(
    rows: Seq<AirwayRecord<Seq<char>>>,
    route: Seq<char>,
    waypoint: Seq<char>,
) -> bool {
    exists|i: int|
        0 <= i < rows.len() && (#[trigger] rows[i]).route_identifier == route
            && rows[i].waypoint_identifier == waypoint
}

/// The end point that a route lacks: that of its last row in the route file, where it is named
/// and not among the rows before any end point was added.
pub open spec fn missing_end(
    base: Seq<AirwayRecord<Seq<char>>>,
    csv_rows: Seq<ParsedAirwayCsvRow<Seq<char>, u64>>,
    route: Seq<char>,
) -> Option<(Seq<char>, ParsedAirwayCsvRow<Seq<char>, u64>)> {
    match last_csv_row(csv_rows, route) {
        Some(row) => match row.end_waypoint {
            Some(field) => {
                let end = text::trim(Blank::Unicode, field);
                if end.len() > 0 && !has_point(base, route, end) {
                    Some((end, row))
                } else {
                    None
                }
            },
            None => None,
        },
        None => None,
    }
}

/// The end points that the routes lack, each numbered behind the other points of its route.
pub open spec fn end_rows(
    base: Seq<AirwayRecord<Seq<char>>>,
    csv_rows: Seq<ParsedAirwayCsvRow<Seq<char>, u64>>,
    routes: Seq<Seq<char>>,
    resolver: IcaoCodeResolver,
    cache: AirwayCoordCache,
) -> Seq<AirwayRecord<Seq<char>>>
    decreases routes.len(),
{
    if routes.len() == 0 {
        seq![]
    } else {
        let added = end_rows(base, csv_rows, routes.drop_last(), resolver, cache);
        let route = routes.last();
        match missing_end(base, csv_rows, route) {
            Some((end, row)) => added.push(
                airway_rows::new_record(
                    route,
                    end,
                    row.end_code_type,
                    airway_points::end_description(row.end_code_type),
                    (row.outbound_course, 0, 0),
                    (route_max(base + added, route) + route_merge::SEQNO_STEP) as i64,
                    resolver,
                    cache,
                ),
            ),
            None => added,
        }
    }
}

fn find_last_csv_row(rows: &Vec<ParsedAirwayCsvRow>, route: &str) -> (r: Option<usize>)
    ensures
        match r {
            Some(i) => {
                &&& i < rows@.len()
                &&& last_csv_row(text::views(rows@), route@) == Some(rows@[i as int]@)
                &&& rows@[i as int]@.route_identifier == route@
            },
            None => last_csv_row(text::views(rows@), route@) is None,
        },
{
    let ghost all = text::views(rows@);
    let mut n: usize = rows.len();
    assert(all.take(n as int) == all);
    while n > 0
        invariant
            n <= rows@.len(),
            all == text::views(rows@),
            last_csv_row(all, route@) == last_csv_row(all.take(n as int), route@),
        decreases n,
    {
        assert(all.take(n as int).last() == rows@[n - 1]@);
        assert(all.take(n as int).drop_last() == all.take(n - 1));
        if text::same(rows[n - 1].route_identifier.as_str(), route) {
            return Some(n - 1);
        }
        n = n - 1;
    }
    None
}

fn find_route_max(rows: &Vec<AirwayRecord>, route: &str) -> (r: i64)
    ensures
        r == route_max(text::views(rows@), route@),
{
    let ghost all = text::views(rows@);
    let mut found: bool = false;
    let mut largest: i64 = 0;
    assert(all.take(0).len() == 0);
    for i in 0..rows.len()
        invariant
            all == text::views(rows@),
            known_max(all.take(i as int), route@) == (if found {
                Some(largest as int)
            } else {
                None
            }),
    {
        assert(all.take(i + 1).drop_last() == all.take(i as int));
        assert(all.take(i + 1).last() == rows@[i as int]@);
        if text::same(rows[i].route_identifier.as_str(), route) {
            if !found || rows[i].seqno > largest {
                largest = rows[i].seqno;
            }
            found = true;
        }
    }
    assert(all.take(rows@.len() as int) == all);
    if found {
        largest
    } else {
        route_merge::FIRST_SEQNO
    }
}

fn is_point(rows: &Vec<AirwayRecord>, count: usize, route: &str, waypoint: &str) -> (r: bool)
    requires
        count <= rows@.len(),
    ensures
        r == has_point(text::views(rows@).take(count as int), route@, waypoint@),
{
    let ghost all = text::views(rows@).take(count as int);
    for i in 0..count
        invariant
            count <= rows@.len(),
            all == text::views(rows@).take(count as int),
            forall|k: int|
                0 <= k < i ==> !((#[trigger] all[k]).route_identifier == route@
                    && all[k].waypoint_identifier == waypoint@),
    {
        assert(all[i as int] == rows@[i as int]@);
        if text::same(rows[i].route_identifier.as_str(), route) && text::same(
            rows[i].waypoint_identifier.as_str(),
            waypoint,
        ) {
            return true;
        }
    }
    false
}

proof fn lemma_known_max_bound(rows: Seq<AirwayRecord<Seq<char>>>, route: Seq<char>, bound: int)
    requires
        forall|i: int| 0 <= i < rows.len() ==> (#[trigger] rows[i]).seqno <= bound,
    ensures
        match known_max(rows, route) {
            Some(seqno) => i64::MIN <= seqno <= bound,
            None => true,
        },
    decreases rows.len(),
{
    if rows.len() > 0 {
        assert(rows[rows.len() - 1].seqno <= bound);
        let init = rows.drop_last();
        assert forall|i: int| 0 <= i < init.len() implies (#[trigger] init[i]).seqno <= bound by {
            assert(init[i] == rows[i]);
        }
        lemma_known_max_bound(init, route, bound);
    }
}

/// Adds the end points that the routes lack.
pub fn append_airway_end_rows(
    final_rows: &mut Vec<AirwayRecord>,
    csv_rows: &Vec<ParsedAirwayCsvRow>,
    route_order: &Vec<String>,
    cache: &AirwayCoordCache,
    resolver: &IcaoCodeResolver,
)
    requires
        forall|i: int|
            0 <= i < old(final_rows)@.len() ==> (#[trigger] old(final_rows)@[i]).seqno
                + route_merge::SEQNO_STEP * route_order@.len() <= i64::MAX,
        route_merge::FIRST_SEQNO + route_merge::SEQNO_STEP * route_order@.len() <= i64::MAX,
    ensures
        text::views(final(final_rows)@) == text::views(old(final_rows)@) + end_rows(
            text::views(old(final_rows)@),
            text::views(csv_rows@),
            text::views(route_order@),
            *resolver,
            *cache,
        ),
{
    let ghost base = text::views(final_rows@);
    let ghost csv = text::views(csv_rows@);
    let ghost routes = text::views(route_order@);
    let base_count: usize = final_rows.len();
    let total: usize = route_order.len();
    assert(routes.take(0).len() == 0);
    assert(text::views(final_rows@) =~= base + end_rows(base, csv, routes.take(0), *resolver, *cache));
    for i in 0..total
        invariant
            total == route_order@.len(),
            base_count == base.len(),
            base_count <= final_rows@.len(),
            csv == text::views(csv_rows@),
            routes == text::views(route_order@),
            text::views(final_rows@) == base + end_rows(
                base,
                csv,
                routes.take(i as int),
                *resolver,
                *cache,
            ),
            forall|k: int|
                0 <= k < final_rows@.len() ==> (#[trigger] final_rows@[k]).seqno
                    + route_merge::SEQNO_STEP * (total - i) <= i64::MAX,
            route_merge::FIRST_SEQNO + route_merge::SEQNO_STEP * total <= i64::MAX,
    {
        let ghost added = end_rows(base, csv, routes.take(i as int), *resolver, *cache);
        let ghost bound = i64::MAX - route_merge::SEQNO_STEP * (total - i);
        let ghost current = text::views(final_rows@);
        proof {
            assert(routes.take(i + 1).drop_last() == routes.take(i as int));
            assert(routes[i as int] == route_order@[i as int]@);
            assert forall|k: int| 0 <= k < current.len() implies (#[trigger] current[k]).seqno
                <= bound by {
                assert(current[k] == final_rows@[k]@);
            }
            lemma_known_max_bound(current, route_order@[i as int]@, bound);
        }
        let route: &str = route_order[i].as_str();
        assert(current.take(base_count as int) =~= base);
        match find_last_csv_row(csv_rows, route) {
            Some(position) => {
                match &csv_rows[position].end_waypoint {
                    Some(field) => {
                        let end: String = text::trimmed(Blank::Unicode, field.as_str());
                        if !text::is_empty(end.as_str()) && !is_point(
                            final_rows,
                            base_count,
                            route,
                            end.as_str(),
                        ) {
                            let largest: i64 = find_route_max(final_rows, route);
                            let kind: Option<AirwayCodeType> = csv_rows[position].end_code_type;
                            let description: &str = match kind {
                                Some(AirwayCodeType::DesignatedPoint) => "EEC",
                                Some(AirwayCodeType::VorDme) => "VEC",
                                Some(AirwayCodeType::Ndb) => "EEC",
                                _ => "",
                            };
                            let record: AirwayRecord = airway_rows::make_record(
                                airway_rows::NewPoint {
                                    route,
                                    waypoint: end.as_str(),
                                    kind,
                                    description,
                                    inbound_course: csv_rows[position].outbound_course,
                                    inbound_distance: 0,
                                    outbound_course: 0,
                                    seqno: largest + route_merge::SEQNO_STEP,
                                },
                                resolver,
                                cache,
                            );
                            proof {
                                text::lemma_views_push(final_rows@, record);
                                assert((base + added).push(record@) =~= base + added.push(
                                    record@,
                                ));
                            }
                            final_rows.push(record);
                        }
                    },
                    None => {},
                }
            },
            None => {},
        }
    }
    assert(routes.take(total as int) == routes);
}

/// The sort keys of rows: route, then sequence number.
pub open spec fn row_keys(rows: Seq<AirwayRecord<Seq<char>>>) -> Seq<SortKey<Seq<char>>> {
    rows.map_values(
        |row: AirwayRecord<Seq<char>>| SortKey { name: row.route_identifier, number: row.seqno },
    )
}

/// The rows at the given positions.
pub open spec fn rearranged(rows: Seq<AirwayRecord<Seq<char>>>, order: Seq<usize>) -> Seq<
    AirwayRecord<Seq<char>>,
> {
    order.map_values(|i: usize| rows[i as int])
}

/// Whether `sorted` is `rows` sorted by route and sequence number, rows with equal keys in the
/// order in which they came.
pub open spec fn is_sorted_from(
    sorted: Seq<AirwayRecord<Seq<char>>>,
    rows: Seq<AirwayRecord<Seq<char>>>,
) -> bool {
    exists|order: Seq<usize>| #[trigger]
        sorting::sorted_order(row_keys(rows), order) && sorted == rearranged(rows, order)
}

/// Sorts rows by route and sequence number.
pub fn sort_airway_rows(rows: &Vec<AirwayRecord>) -> (out: Vec<AirwayRecord>)
    ensures
        is_sorted_from(text::views(out@), text::views(rows@)),
{
    let ghost all = text::views(rows@);
    let mut keys: Vec<SortKey> = Vec::new();
    assert(text::views(keys@) =~= row_keys(all).take(0));
    for i in 0..rows.len()
        invariant
            all == text::views(rows@),
            text::views(keys@) == row_keys(all).take(i as int),
    {
        let key = SortKey { name: rows[i].route_identifier.clone(), number: rows[i].seqno };
        proof {
            text::lemma_views_push(keys@, key);
            assert(row_keys(all).take(i + 1) =~= row_keys(all).take(i as int).push(key@));
        }
        keys.push(key);
    }
    assert(row_keys(all).take(rows@.len() as int) == row_keys(all));
    let order: Vec<usize> = sorting::stable_order(&keys);
    let ghost goal = rearranged(all, order@);
    let mut out: Vec<AirwayRecord> = Vec::new();
    assert(text::views(out@) =~= goal.take(0));
    for i in 0..order.len()
        invariant
            all == text::views(rows@),
            goal == rearranged(all, order@),
            order@.len() == rows@.len(),
            forall|k: int| 0 <= k < order@.len() ==> 0 <= #[trigger] order@[k] < rows@.len(),
            text::views(out@) == goal.take(i as int),
    {
        assert(order@[i as int] < rows@.len());
        let row: AirwayRecord = rows[order[i]].copy();
        proof {
            text::lemma_views_push(out@, row);
            assert(goal.take(i + 1) =~= goal.take(i as int).push(row@));
        }
        out.push(row);
    }
    assert(goal.take(order@.len() as int) == goal);
    out
}

/// The rows behind the merge: those merged, or the processed ones where nothing was planned.
pub open spec fn chosen_rows(
    processed: Seq<AirwayRecord<Seq<char>>>,
    db_rows: Seq<AirwayRecord<Seq<char>>>,
) -> Seq<AirwayRecord<Seq<char>>> {
    let merged = merged_rows(processed, db_rows);
    if merged.len() == 0 {
        processed
    } else {
        merged
    }
}

/// All rows of the table for the routes of the route file, before they are sorted.
pub open spec fn collected_rows(
    csv_rows: Seq<ParsedAirwayCsvRow<Seq<char>, u64>>,
    db_rows: Seq<AirwayRecord<Seq<char>>>,
    resolver: IcaoCodeResolver,
    cache: AirwayCoordCache,
) -> Seq<AirwayRecord<Seq<char>>> {
    let processed = airway_rows::processed_rows(csv_rows, resolver, cache);
    let chosen = chosen_rows(processed, db_rows);
    chosen + end_rows(chosen, csv_rows, unique_routes(processed), resolver, cache)
}

/// Whether `rows` are sorted rows, each with its direction restriction.
pub open spec fn is_directed_from(
    rows: Seq<AirwayRecord<Seq<char>>>,
    sorted: Seq<AirwayRecord<Seq<char>>>,
    csv_rows: Seq<ParsedAirwayCsvRow<Seq<char>, u64>>,
) -> bool {
    &&& rows.len() == sorted.len()
    &&& forall|i: int|
        0 <= i < rows.len() ==> #[trigger] rows[i] == airway_rows::with_direction(
            sorted[i],
            airway_rows::row_direction(sorted, airway_rows::direction_log(csv_rows), i),
        )
}

proof fn lemma_merged_seqnos(
    processed: Seq<AirwayRecord<Seq<char>>>,
    db_rows: Seq<AirwayRecord<Seq<char>>>,
)
    requires
        processed.len() <= usize::MAX,
        db_rows.len() <= usize::MAX,
        seqnos_fit(processed.len(), db_rows),
        forall|i: int| 0 <= i < processed.len() ==> (#[trigger] processed[i]).seqno == 0,
    ensures
        forall|i: int|
            0 <= i < chosen_rows(processed, db_rows).len() ==> (#[trigger] chosen_rows(
                processed,
                db_rows,
            )[i]).seqno + route_merge::SEQNO_STEP * processed.len() <= i64::MAX,
{
    let rows = chosen_rows(processed, db_rows);
    let plan = row_plan(processed, db_rows);
    lemma_plan_fits(processed, db_rows, unique_routes(processed));
    assert forall|i: int| 0 <= i < rows.len() implies (#[trigger] rows[i]).seqno
        + route_merge::SEQNO_STEP * processed.len() <= i64::MAX by {
        if merged_rows(processed, db_rows).len() > 0 {
            assert(entry_fits(plan[i], processed.len() as int, db_rows));
            assert(rows[i] == planned_row(processed, db_rows, plan[i]));
            if plan[i].seqno is None {
                assert(db_rows[plan[i].row as int].seqno + route_merge::SEQNO_STEP * (2
                    * processed.len()) <= i64::MAX);
            }
        }
    }
}

/// Assembles the rows of the table: merges the route file into the database rows, adds missing
/// end points, sorts, and gives every row its direction restriction.
pub fn process_airways_to_db(
    csv_rows: &Vec<ParsedAirwayCsvRow>,
    db_rows: &Vec<AirwayRecord>,
    cache: &AirwayCoordCache,
    resolver: &IcaoCodeResolver,
) -> (r: MergedAirways)
    requires
        seqnos_fit(csv_rows@.len(), text::views(db_rows@)),
    ensures
        ({
            let csv = text::views(csv_rows@);
            let db = text::views(db_rows@);
            let processed = airway_rows::processed_rows(csv, *resolver, *cache);
            &&& exists|sorted: Seq<AirwayRecord<Seq<char>>>| #[trigger]
                is_sorted_from(sorted, collected_rows(csv, db, *resolver, *cache))
                    && is_directed_from(text::views(r.rows@), sorted, csv)
            &&& text::views(r.routes_to_delete@) == unique_routes(processed)
            &&& text::views(r.routes_with_missing@) == text::collect(
                unique_routes(processed),
                shared_route(processed, db),
            )
        }),
{
    let ghost csv = text::views(csv_rows@);
    let ghost db = text::views(db_rows@);
    let count: usize = csv_rows.len();
    let db_count: usize = db_rows.len();
    let processed: Vec<AirwayRecord> = airway_rows::build_processed_airway_rows(
        csv_rows,
        cache,
        resolver,
    );
    let ghost p = text::views(processed@);
    let merged: MergedAirways = merge_airway_rows(&processed, db_rows);
    let mut rows: Vec<AirwayRecord> = if merged.rows.len() == 0 {
        processed
    } else {
        merged.rows
    };
    let ghost chosen = chosen_rows(p, db);
    assert(text::views(rows@) == chosen);
    proof {
        lemma_merged_seqnos(p, db);
        lemma_routes_bound(p);
        assert forall|i: int| 0 <= i < rows@.len() implies (#[trigger] rows@[i]).seqno
            + route_merge::SEQNO_STEP * merged.routes_to_delete@.len() <= i64::MAX by {
            assert(chosen[i] == rows@[i]@);
            assert(text::views(merged.routes_to_delete@).len() <= p.len());
        }
        assert(text::views(merged.routes_to_delete@).len() <= p.len());
    }
    append_airway_end_rows(&mut rows, csv_rows, &merged.routes_to_delete, cache, resolver);
    let mut sorted: Vec<AirwayRecord> = sort_airway_rows(&rows);
    let ghost before = text::views(sorted@);
    airway_rows::apply_airway_direction_restrictions(&mut sorted, csv_rows);
    assert(is_sorted_from(before, collected_rows(csv, db, *resolver, *cache)));
    assert(is_directed_from(text::views(sorted@), before, csv));
    MergedAirways {
        rows: sorted,
        routes_to_delete: merged.routes_to_delete,
        routes_with_missing: merged.routes_with_missing,
    }
}

proof fn lemma_routes_bound(rows: Seq<AirwayRecord<Seq<char>>>)
    ensures
        unique_routes(rows).len() <= rows.len(),
{
    lemma_distinct_bound(routes_of(rows));
}

proof fn lemma_distinct_bound(s: Seq<Seq<char>>)
    ensures
        keyed::distinct(s).len() <= s.len(),
    decreases s.len(),
{
    if s.len() > 0 {
        lemma_distinct_bound(s.drop_last());
    }
}

/// A leg between two neighbouring rows whose length and course are to be measured.
#[derive(Clone, Copy, Debug)]
pub struct SegmentTask {
    /// The row at the start of the leg; the next row is its end.
    pub current: usize,
    /// The two ends, if the positions of both are known.
    pub points: Option<(Point, Point)>,
}

/// The length of a leg and the course at its start.
#[derive(Clone, Copy, PartialEq, Eq, Debug, Structural)]
pub struct SegmentMetric {
    pub distance: u64,
    pub course: u64,
}

/// The number of measured legs differs from the number of legs.
#[derive(Clone, Copy, PartialEq, Eq, Debug, Structural)]
pub struct LengthMismatch;

/// The position of a row, if both coordinates are known.
pub open spec fn record_point(row: AirwayRecord<Seq<char>>) -> Option<Point> {
    match (row.waypoint_latitude, row.waypoint_longitude) {
        (Some(latitude), Some(longitude)) => Some(Point { latitude, longitude }),
        _ => None,
    }
}

/// The ends of the leg from one row to the next, if the positions of both are known.
pub open spec fn leg_points(
    from: AirwayRecord<Seq<char>>,
    to: AirwayRecord<Seq<char>>,
) -> Option<(Point, Point)> {
    match (record_point(from), record_point(to)) {
        (Some(start), Some(end)) => Some((start, end)),
        _ => None,
    }
}

/// The choice of the legs of the affected routes.
pub open spec fn segment_chooser(
    rows: Seq<AirwayRecord<Seq<char>>>,
    affected: Seq<Seq<char>>,
) -> spec_fn(int, AirwayRecord<Seq<char>>) -> Option<SegmentTask> {
    |i: int, row: AirwayRecord<Seq<char>>|
        if affected.contains(row.route_identifier) && airway_rows::followed(rows, i) {
            Some(SegmentTask { current: i as usize, points: leg_points(row, rows[i + 1]) })
        } else {
            None
        }
}

/// The legs of the affected routes, in order.
pub open spec fn segment_tasks(
    rows: Seq<AirwayRecord<Seq<char>>>,
    affected: Seq<Seq<char>>,
) -> Seq<SegmentTask> {
    text::collect(rows, segment_chooser(rows, affected))
}

fn find_record_point(row: &AirwayRecord) -> (r: Option<Point>)
    ensures
        r == record_point(row@),
{
    match (row.waypoint_latitude, row.waypoint_longitude) {
        (Some(latitude), Some(longitude)) => Some(Point { latitude, longitude }),
        _ => None,
    }
}

/// Lists the legs of the affected routes.
pub fn list_segment_tasks(rows: &Vec<AirwayRecord>, affected: &TextSet) -> (out: Vec<SegmentTask>)
    requires
        affected.wf(),
    ensures
        out@ == segment_tasks(text::views(rows@), affected@),
{
    let ghost all = text::views(rows@);
    let ghost f = segment_chooser(all, affected@);
    let count: usize = rows.len();
    let mut out: Vec<SegmentTask> = Vec::new();
    assert(all.take(0).len() == 0);
    for i in 0..count
        invariant
            count == rows@.len(),
            affected.wf(),
            all == text::views(rows@),
            f == segment_chooser(all, affected@),
            out@ == text::collect(all.take(i as int), f),
    {
        proof {
            text::lemma_collect_step(all, f, i as int);
            assert(all[i as int] == rows@[i as int]@);
        }
        if i < count - 1 {
            assert(all[i + 1] == rows@[i + 1]@);
            if affected.contains(rows[i].route_identifier.as_str()) && text::same(
                rows[i + 1].route_identifier.as_str(),
                rows[i].route_identifier.as_str(),
            ) {
                let points: Option<(Point, Point)> = match (
                    find_record_point(&rows[i]),
                    find_record_point(&rows[i + 1]),
                ) {
                    (Some(start), Some(end)) => Some((start, end)),
                    _ => None,
                };
                out.push(SegmentTask { current: i, points });
            }
        }
    }
    assert(all.take(count as int) == all);
    out
}

/// The lengths and courses of legs: those measured, zero where an end is not known. The measured
/// values have to be as many as the legs.
pub fn build_airway_segment_metrics(tasks: &Vec<SegmentTask>, measured: &Vec<SegmentMetric>) -> (r:
    Result<Vec<SegmentMetric>, LengthMismatch>)
    ensures
        match r {
            Ok(metrics) => {
                &&& tasks@.len() == measured@.len()
                &&& metrics@.len() == tasks@.len()
                &&& forall|i: int|
                    0 <= i < metrics@.len() ==> #[trigger] metrics@[i] == (
                    if tasks@[i].points is Some {
                        measured@[i]
                    } else {
                        SegmentMetric { distance: 0, course: 0 }
                    })
            },
            Err(_) => tasks@.len() != measured@.len(),
        },
{
    if tasks.len() != measured.len() {
        return Err(LengthMismatch);
    }
    let mut metrics: Vec<SegmentMetric> = Vec::new();
    for i in 0..tasks.len()
        invariant
            tasks@.len() == measured@.len(),
            metrics@.len() == i,
            forall|k: int|
                0 <= k < i ==> #[trigger] metrics@[k] == (if tasks@[k].points is Some {
                    measured@[k]
                } else {
                    SegmentMetric { distance: 0, course: 0 }
                }),
    {
        let metric: SegmentMetric = match tasks[i].points {
            Some(_) => measured[i],
            None => SegmentMetric { distance: 0, course: 0 },
        };
        metrics.push(metric);
    }
    Ok(metrics)
}

/// The metric of the leg that starts at a row, if there is one.
pub open spec fn metric_from(
    tasks: Seq<SegmentTask>,
    metrics: Seq<SegmentMetric>,
    row: int,
) -> Option<SegmentMetric>
    decreases tasks.len(),
{
    if tasks.len() == 0 {
        None
    } else if tasks.last().current == row {
        Some(metrics[tasks.len() - 1])
    } else {
        metric_from(tasks.drop_last(), metrics, row)
    }
}

/// A row of the affected routes with its measured values: the leg from it gives length and
/// outbound course, zero at the end of a route; the leg to it gives the inbound course.
pub open spec fn measured_row(
    row: AirwayRecord<Seq<char>>,
    affected: Seq<Seq<char>>,
    tasks: Seq<SegmentTask>,
    metrics: Seq<SegmentMetric>,
    i: int,
) -> AirwayRecord<Seq<char>> {
    let outgoing = match metric_from(tasks, metrics, i) {
        Some(metric) => AirwayRecord {
            inbound_distance: metric.distance,
            outbound_course: metric.course,
            ..row
        },
        None => if affected.contains(row.route_identifier) {
            AirwayRecord { inbound_distance: 0, outbound_course: 0, ..row }
        } else {
            row
        },
    };
    match metric_from(tasks, metrics, i - 1) {
        Some(metric) => AirwayRecord { inbound_course: metric.course, ..outgoing },
        None => outgoing,
    }
}

proof fn lemma_tasks_in_range(
    rows: Seq<AirwayRecord<Seq<char>>>,
    affected: Seq<Seq<char>>,
    n: int,
)
    requires
        0 <= n <= rows.len(),
        rows.len() <= usize::MAX,
    ensures
        forall|k: int|
            0 <= k < text::collect(rows.take(n), segment_chooser(rows, affected)).len() ==> (
            #[trigger] text::collect(rows.take(n), segment_chooser(rows, affected))[k]).current
                + 1 < rows.len(),
    decreases n,
{
    let f = segment_chooser(rows, affected);
    if n > 0 {
        lemma_tasks_in_range(rows, affected, n - 1);
        text::lemma_collect_step(rows, f, n - 1);
        let whole = text::collect(rows.take(n), f);
        let part = text::collect(rows.take(n - 1), f);
        assert forall|k: int| 0 <= k < whole.len() implies (#[trigger] whole[k]).current + 1
            < rows.len() by {
            if k < part.len() {
                assert(whole[k] == part[k]);
            }
        }
    } else {
        assert(rows.take(0).len() == 0);
    }
}

/// The measured values with zeros for the legs that could not be measured.
pub open spec fn leg_metrics(tasks: Seq<SegmentTask>, measured: Seq<SegmentMetric>) -> Seq<
    SegmentMetric,
> {
    Seq::new(
        tasks.len(),
        |i: int|
            if tasks[i].points is Some {
                measured[i]
            } else {
                SegmentMetric { distance: 0, course: 0 }
            },
    )
}

/// Enters the measured values of the legs of the affected routes. Where their number is not that
/// of the legs, nothing changes.
pub fn apply_airway_segment_metrics(
    rows: &mut Vec<AirwayRecord>,
    affected: &TextSet,
    measured: &Vec<SegmentMetric>,
) -> (r: Result<(), LengthMismatch>)
    requires
        affected.wf(),
    ensures
        ({
            let before = text::views(old(rows)@);
            let tasks = segment_tasks(before, affected@);
            if tasks.len() == measured@.len() {
                &&& r is Ok
                &&& final(rows)@.len() == old(rows)@.len()
                &&& forall|i: int|
                    0 <= i < before.len() ==> (#[trigger] final(rows)@[i])@ == measured_row(
                        before[i],
                        affected@,
                        tasks,
                        leg_metrics(tasks, measured@),
                        i,
                    )
            } else {
                r is Err && *final(rows) == *old(rows)
            }
        }),
{
    let ghost before = text::views(rows@);
    let tasks: Vec<SegmentTask> = list_segment_tasks(rows, affected);
    let metrics: Vec<SegmentMetric> = match build_airway_segment_metrics(&tasks, measured) {
        Ok(metrics) => metrics,
        Err(error) => return Err(error),
    };
    assert(metrics@ =~= leg_metrics(tasks@, measured@));
    let count: usize = rows.len();
    proof {
        lemma_tasks_in_range(before, affected@, count as int);
        assert(before.take(count as int) == before);
        assert(tasks@.take(0).len() == 0);
    }
    for i in 0..count
        invariant
            count == before.len(),
            rows@.len() == count,
            affected.wf(),
            tasks@.take(0).len() == 0,
            forall|k: int|
                0 <= k < i ==> (#[trigger] rows@[k])@ == measured_row(
                    before[k],
                    affected@,
                    tasks@.take(0),
                    metrics@,
                    k,
                ),
            forall|k: int| i <= k < count ==> (#[trigger] rows@[k])@ == before[k],
    {
        assert(rows@[i as int]@ == before[i as int]);
        if affected.contains(rows[i].route_identifier.as_str()) {
            rows[i].inbound_distance = 0;
            rows[i].outbound_course = 0;
        }
        assert(rows@[i as int]@ =~= measured_row(
            before[i as int],
            affected@,
            tasks@.take(0),
            metrics@,
            i as int,
        ));
    }
    for t in 0..tasks.len()
        invariant
            count == before.len(),
            rows@.len() == count,
            metrics@.len() == tasks@.len(),
            forall|k: int| 0 <= k < tasks@.len() ==> (#[trigger] tasks@[k]).current + 1 < count,
            forall|k: int|
                0 <= k < count ==> (#[trigger] rows@[k])@ == measured_row(
                    before[k],
                    affected@,
                    tasks@.take(t as int),
                    metrics@,
                    k,
                ),
    {
        let ghost earlier = rows@;
        let current: usize = tasks[t].current;
        assert(tasks@[t as int].current + 1 < count);
        rows[current].inbound_distance = metrics[t].distance;
        rows[current].outbound_course = metrics[t].course;
        rows[current + 1].inbound_course = metrics[t].course;
        proof {
            let part = tasks@.take(t as int);
            let next = tasks@.take(t + 1);
            assert(next.drop_last() == part);
            assert forall|k: int| 0 <= k < count implies (#[trigger] rows@[k])@ == measured_row(
                before[k],
                affected@,
                next,
                metrics@,
                k,
            ) by {
                assert(earlier[k]@ == measured_row(before[k], affected@, part, metrics@, k));
                assert(rows@[k]@ =~= measured_row(before[k], affected@, next, metrics@, k));
            }
        }
    }
    assert(tasks@.take(tasks@.len() as int) == tasks@);
    Ok(())
}

/// The points of a route in the file are the rows of that route, in order, each with its position
/// among all rows.
pub proof fn points_of_a_route_are_its_rows(
    rows: Seq<AirwayRecord<Seq<char>>>,
    route: Seq<char>,
    i: int,
)
    requires
        0 <= i < rows.len(),
        rows.len() <= usize::MAX,
        rows[i].route_identifier == route,
    ensures
        csv_points(rows, route).contains(
            (CsvRoutePoint { waypoint: rows[i].waypoint_identifier, row: i as usize }),
        ),
        db_points(rows, route).contains(
            (DbRoutePoint {
                waypoint: rows[i].waypoint_identifier,
                row: i as usize,
                seqno: rows[i].seqno,
            }),
        ),
        forall|k: int|
            0 <= k < csv_points(rows, route).len() ==> {
                let point = #[trigger] csv_points(rows, route)[k];
                &&& point.row < rows.len()
                &&& rows[point.row as int].route_identifier == route
                &&& rows[point.row as int].waypoint_identifier == point.waypoint
            },
        forall|k: int|
            0 <= k < db_points(rows, route).len() ==> {
                let point = #[trigger] db_points(rows, route)[k];
                &&& point.row < rows.len()
                &&& rows[point.row as int].route_identifier == route
                &&& rows[point.row as int].waypoint_identifier == point.waypoint
                &&& rows[point.row as int].seqno == point.seqno
            },
{
    let f = csv_point_chooser(route);
    let g = db_point_chooser(route);
    let c = CsvRoutePoint { waypoint: rows[i].waypoint_identifier, row: i as usize };
    let d = DbRoutePoint {
        waypoint: rows[i].waypoint_identifier,
        row: i as usize,
        seqno: rows[i].seqno,
    };
    text::lemma_collect_contains(rows, f, c);
    text::lemma_collect_contains(rows, g, d);
    assert(f(i, rows[i]) == Some(c));
    assert(g(i, rows[i]) == Some(d));
    assert forall|k: int| 0 <= k < csv_points(rows, route).len() implies {
        let point = #[trigger] csv_points(rows, route)[k];
        &&& point.row < rows.len()
        &&& rows[point.row as int].route_identifier == route
        &&& rows[point.row as int].waypoint_identifier == point.waypoint
    } by {
        let point = csv_points(rows, route)[k];
        text::lemma_collect_contains(rows, f, point);
        assert(csv_points(rows, route).contains(point));
    }
    assert forall|k: int| 0 <= k < db_points(rows, route).len() implies {
        let point = #[trigger] db_points(rows, route)[k];
        &&& point.row < rows.len()
        &&& rows[point.row as int].route_identifier == route
        &&& rows[point.row as int].waypoint_identifier == point.waypoint
        &&& rows[point.row as int].seqno == point.seqno
    } by {
        let point = db_points(rows, route)[k];
        text::lemma_collect_contains(rows, g, point);
        assert(db_points(rows, route).contains(point));
    }
}

/// A planned row is the row that it is planned from, with the planned number where there is one.
pub proof fn a_planned_row_is_the_row_it_comes_from(
    processed: Seq<AirwayRecord<Seq<char>>>,
    db_rows: Seq<AirwayRecord<Seq<char>>>,
    entry: RowPlanEntry,
)
    ensures
        ({
            let source = if entry.source == RowSource::Csv {
                processed[entry.row as int]
            } else {
                db_rows[entry.row as int]
            };
            let row = planned_row(processed, db_rows, entry);
            &&& row.seqno == (match entry.seqno {
                Some(seqno) => seqno,
                None => source.seqno,
            })
            &&& row.route_identifier == source.route_identifier
            &&& row.waypoint_identifier == source.waypoint_identifier
            &&& row.waypoint_latitude == source.waypoint_latitude
            &&& row.waypoint_longitude == source.waypoint_longitude
            &&& row.inbound_course == source.inbound_course
            &&& row.inbound_distance == source.inbound_distance
            &&& row.outbound_course == source.outbound_course
            &&& row.direction_restriction == source.direction_restriction
            &&& row.icao_code == source.icao_code
            &&& row.id == source.id
            &&& row.minimum_altitude1 == source.minimum_altitude1
            &&& row.minimum_altitude2 == source.minimum_altitude2
            &&& row.maximum_altitude == source.maximum_altitude
            &&& row.waypoint_description_code == source.waypoint_description_code
            &&& row.area_code == source.area_code
            &&& row.route_type == source.route_type
            &&& row.flightlevel == source.flightlevel
            &&& row.crusing_table_identifier == source.crusing_table_identifier
        }),
{
}

/// The last row of a route in the file is the one behind which no other row of that route comes.
pub proof fn the_last_row_of_a_route_is_found(
    rows: Seq<ParsedAirwayCsvRow<Seq<char>, u64>>,
    i: int,
)
    requires
        0 <= i < rows.len(),
        forall|j: int|
            i < j < rows.len() ==> (#[trigger] rows[j]).route_identifier
                != rows[i].route_identifier,
    ensures
        last_csv_row(rows, rows[i].route_identifier) == Some(rows[i]),
    decreases rows.len(),
{
    if i < rows.len() - 1 {
        let init = rows.drop_last();
        assert(rows[rows.len() - 1] == rows.last());
        assert(init[i] == rows[i]);
        assert forall|j: int| i < j < init.len() implies (#[trigger] init[j]).route_identifier
            != init[i].route_identifier by {
            assert(init[j] == rows[j]);
        }
        the_last_row_of_a_route_is_found(init, i);
    }
}

/// The largest number of a route is that of one of its rows, and none of them has a larger one; a
/// route without rows starts at a thousand.
pub proof fn the_largest_number_of_a_route_is_reached(
    rows: Seq<AirwayRecord<Seq<char>>>,
    route: Seq<char>,
    i: int,
)
    ensures
        0 <= i < rows.len() && rows[i].route_identifier == route ==> rows[i].seqno <= route_max(
            rows,
            route,
        ),
        (exists|k: int|
            0 <= k < rows.len() && (#[trigger] rows[k]).route_identifier == route && rows[k].seqno
                == route_max(rows, route)) || (route_max(rows, route) == 1000 && forall|k: int|
            0 <= k < rows.len() ==> (#[trigger] rows[k]).route_identifier != route),
{
    lemma_known_max(rows, route, i);
}

proof fn lemma_known_max(rows: Seq<AirwayRecord<Seq<char>>>, route: Seq<char>, i: int)
    ensures
        match known_max(rows, route) {
            Some(seqno) => {
                &&& 0 <= i < rows.len() && rows[i].route_identifier == route ==> rows[i].seqno
                    <= seqno
                &&& exists|k: int|
                    0 <= k < rows.len() && (#[trigger] rows[k]).route_identifier == route
                        && rows[k].seqno == seqno
            },
            None => forall|k: int|
                0 <= k < rows.len() ==> (#[trigger] rows[k]).route_identifier != route,
        },
    decreases rows.len(),
{
    if rows.len() > 0 {
        let init = rows.drop_last();
        let last = rows.len() - 1;
        lemma_known_max(init, route, i);
        assert(rows[last] == rows.last());
        if 0 <= i < last {
            assert(init[i] == rows[i]);
        }
        match known_max(init, route) {
            Some(seqno) => {
                let k = choose|k: int|
                    0 <= k < init.len() && (#[trigger] init[k]).route_identifier == route
                        && init[k].seqno == seqno;
                assert(rows[k] == init[k]);
            },
            None => {
                assert forall|k: int| 0 <= k < last implies (#[trigger] rows[k]).route_identifier
                    != route by {
                    assert(init[k] == rows[k]);
                }
            },
        }
    }
}

/// A route gets the end point of its last row in the file where it does not have it yet: behind its
/// largest number, with the course out of that last row as the course into it.
pub proof fn a_route_gets_the_end_point_that_it_lacks(
    base: Seq<AirwayRecord<Seq<char>>>,
    csv_rows: Seq<ParsedAirwayCsvRow<Seq<char>, u64>>,
    routes: Seq<Seq<char>>,
    route: Seq<char>,
    resolver: IcaoCodeResolver,
    cache: AirwayCoordCache,
    last: ParsedAirwayCsvRow<Seq<char>, u64>,
    end: Seq<char>,
)
    requires
        last_csv_row(csv_rows, route) == Some(last),
        last.end_waypoint is Some,
        text::trim(Blank::Unicode, last.end_waypoint->0) == end,
        end.len() > 0,
        route_max(base + end_rows(base, csv_rows, routes, resolver, cache), route) + 5 <= i64::MAX,
        route_max(base + end_rows(base, csv_rows, routes, resolver, cache), route) >= i64::MIN,
    ensures
        ({
            let before = end_rows(base, csv_rows, routes, resolver, cache);
            let after = end_rows(base, csv_rows, routes.push(route), resolver, cache);
            let known = exists|i: int|
                0 <= i < base.len() && (#[trigger] base[i]).route_identifier == route
                    && base[i].waypoint_identifier == end;
            &&& known ==> after == before
            &&& !known ==> {
                let row = after.last();
                &&& after.len() == before.len() + 1
                &&& after.drop_last() == before
                &&& row.route_identifier == route
                &&& row.waypoint_identifier == end
                &&& row.inbound_course == last.outbound_course
                &&& row.inbound_distance == 0
                &&& row.outbound_course == 0
                &&& row.seqno == route_max(base + before, route) + 5
                &&& row.waypoint_description_code == (match last.end_code_type {
                    Some(AirwayCodeType::VorDme) => "VEC"@,
                    Some(AirwayCodeType::DesignatedPoint) => "EEC"@,
                    Some(AirwayCodeType::Ndb) => "EEC"@,
                    _ => ""@,
                })
                &&& forall|p: Point|
                    (last.end_code_type == Some(AirwayCodeType::DesignatedPoint)
                        && #[trigger] cache.point(airway_points::AidType::Fix, end) == Some(p))
                        ==> row.waypoint_latitude == Some(p.latitude) && row.waypoint_longitude
                        == Some(p.longitude)
                &&& forall|p: Point|
                    (last.end_code_type == Some(AirwayCodeType::VorDme) && #[trigger] cache.point(
                        airway_points::AidType::Vhf,
                        end,
                    ) == Some(p)) ==> row.waypoint_latitude == Some(p.latitude)
                        && row.waypoint_longitude == Some(p.longitude)
            }
        }),
{
    assert(routes.push(route).drop_last() =~= routes);
    assert(routes.push(route).last() == route);
}

/// The rows are sorted by route and then by number, and they are the same rows as before.
pub proof fn sorted_rows_go_by_route_and_number(
    sorted: Seq<AirwayRecord<Seq<char>>>,
    rows: Seq<AirwayRecord<Seq<char>>>,
    i: int,
    j: int,
)
    requires
        is_sorted_from(sorted, rows),
        0 <= i < j < sorted.len(),
    ensures
        sorted.len() == rows.len(),
        sorted.to_multiset() == rows.to_multiset(),
        !sorting::text_less(sorted[j].route_identifier, sorted[i].route_identifier),
        sorted[i].route_identifier == sorted[j].route_identifier ==> sorted[i].seqno
            <= sorted[j].seqno,
{
    let keys = row_keys(rows);
    let order = choose|order: Seq<usize>| #[trigger]
        sorting::sorted_order(keys, order) && sorted == rearranged(rows, order);
    let f = |position: int| rows[position];
    let places = order.map_values(|position: usize| position as int);
    let all = Seq::new(keys.len(), |position: int| position);
    sorting::lemma_every_place_once(keys, order);
    text::lemma_images(places, all, f);
    assert(places.map_values(f) =~= sorted);
    assert(all.map_values(f) =~= rows);
    let a = order[i] as int;
    let b = order[j] as int;
    assert(sorting::placed_before(keys, a, b));
    sorting::text_less_is_irreflexive(rows[a].route_identifier);
    if sorting::text_less(rows[b].route_identifier, rows[a].route_identifier)
        && sorting::text_less(rows[a].route_identifier, rows[b].route_identifier) {
        sorting::text_less_is_transitive(
            rows[a].route_identifier,
            rows[b].route_identifier,
            rows[a].route_identifier,
        );
    }
}

/// A leg is measured for every row of an affected route that another row of that route follows,
/// between the positions of the two; each position is the row's own latitude and longitude.
pub proof fn legs_are_measured_between_following_rows(
    rows: Seq<AirwayRecord<Seq<char>>>,
    affected: Seq<Seq<char>>,
    task: SegmentTask,
)
    requires
        rows.len() <= usize::MAX,
    ensures
        segment_tasks(rows, affected).contains(task) <==> {
            let i = task.current as int;
            &&& i + 1 < rows.len()
            &&& affected.contains(rows[i].route_identifier)
            &&& rows[i + 1].route_identifier == rows[i].route_identifier
            &&& match task.points {
                Some((start, end)) => {
                    &&& rows[i].waypoint_latitude == Some(start.latitude)
                    &&& rows[i].waypoint_longitude == Some(start.longitude)
                    &&& rows[i + 1].waypoint_latitude == Some(end.latitude)
                    &&& rows[i + 1].waypoint_longitude == Some(end.longitude)
                },
                None => rows[i].waypoint_latitude is None || rows[i].waypoint_longitude is None
                    || rows[i + 1].waypoint_latitude is None || rows[i + 1].waypoint_longitude
                    is None,
            }
        },
{
    let f = segment_chooser(rows, affected);
    text::lemma_collect_contains(rows, f, task);
    let i = task.current as int;
    if segment_tasks(rows, affected).contains(task) {
        let k = choose|k: int| 0 <= k < rows.len() && f(k, #[trigger] rows[k]) == Some(task);
        assert(k == i);
    }
    if i + 1 < rows.len() && affected.contains(rows[i].route_identifier) && rows[i
        + 1].route_identifier == rows[i].route_identifier {
        assert(f(i, rows[i]) is Some);
        assert(f(i, rows[i])->0.current == task.current);
    }
}

/// What was measured of a leg reaches its two rows: the distance and the course out of the first,
/// and the course into the second. A row of an affected route behind which no leg begins has neither
/// distance nor course out of it; a row of another route keeps what it has.
pub proof fn measures_reach_the_rows_of_their_leg(
    rows: Seq<AirwayRecord<Seq<char>>>,
    affected: Seq<Seq<char>>,
    tasks: Seq<SegmentTask>,
    metrics: Seq<SegmentMetric>,
    t: int,
)
    requires
        0 <= t < tasks.len(),
        metrics.len() == tasks.len(),
        tasks[t].current + 1 < rows.len(),
        forall|u: int| 0 <= u < tasks.len() && u != t ==> (#[trigger] tasks[u]).current
            != tasks[t].current,
    ensures
        ({
            let i = tasks[t].current as int;
            let start = measured_row(rows[i], affected, tasks, metrics, i);
            let end = measured_row(rows[i + 1], affected, tasks, metrics, i + 1);
            &&& start.inbound_distance == metrics[t].distance
            &&& start.outbound_course == metrics[t].course
            &&& end.inbound_course == metrics[t].course
            &&& start.waypoint_latitude == rows[i].waypoint_latitude
            &&& start.waypoint_longitude == rows[i].waypoint_longitude
            &&& start.seqno == rows[i].seqno
            &&& start.route_identifier == rows[i].route_identifier
            &&& start.waypoint_identifier == rows[i].waypoint_identifier
        }),
{
    lemma_metric_from(tasks, metrics, t);
}

proof fn lemma_metric_from(tasks: Seq<SegmentTask>, metrics: Seq<SegmentMetric>, t: int)
    requires
        0 <= t < tasks.len(),
        forall|u: int| 0 <= u < tasks.len() && u != t ==> (#[trigger] tasks[u]).current
            != tasks[t].current,
    ensures
        metric_from(tasks, metrics, tasks[t].current as int) == Some(metrics[t]),
    decreases tasks.len(),
{
    if t < tasks.len() - 1 {
        let init = tasks.drop_last();
        assert(tasks[tasks.len() - 1].current != tasks[t].current);
        assert(init[t] == tasks[t]);
        assert forall|u: int| 0 <= u < init.len() && u != t implies (#[trigger] init[u]).current
            != init[t].current by {
            assert(init[u] == tasks[u]);
        }
        lemma_metric_from(init, metrics, t);
    }
}

/// A row at which no leg begins has no distance and no course out of it where its route is affected,
/// and keeps both where it is not; a row at which no leg ends keeps its course in.
pub proof fn rows_without_a_leg_are_cleared_or_kept(
    row: AirwayRecord<Seq<char>>,
    affected: Seq<Seq<char>>,
    tasks: Seq<SegmentTask>,
    metrics: Seq<SegmentMetric>,
    i: int,
)
    ensures
        (forall|u: int| 0 <= u < tasks.len() ==> (#[trigger] tasks[u]).current != i) ==> {
            let measured = measured_row(row, affected, tasks, metrics, i);
            &&& affected.contains(row.route_identifier) ==> measured.inbound_distance == 0
                && measured.outbound_course == 0
            &&& !affected.contains(row.route_identifier) ==> measured.inbound_distance
                == row.inbound_distance && measured.outbound_course == row.outbound_course
        },
        (forall|u: int| 0 <= u < tasks.len() ==> (#[trigger] tasks[u]).current != i - 1)
            ==> measured_row(row, affected, tasks, metrics, i).inbound_course
            == row.inbound_course,
{
    if forall|u: int| 0 <= u < tasks.len() ==> (#[trigger] tasks[u]).current != i {
        lemma_no_metric(tasks, metrics, i);
    }
    if forall|u: int| 0 <= u < tasks.len() ==> (#[trigger] tasks[u]).current != i - 1 {
        lemma_no_metric(tasks, metrics, i - 1);
    }
}

proof fn lemma_no_metric(tasks: Seq<SegmentTask>, metrics: Seq<SegmentMetric>, row: int)
    requires
        forall|u: int| 0 <= u < tasks.len() ==> (#[trigger] tasks[u]).current != row,
    ensures
        metric_from(tasks, metrics, row) is None,
    decreases tasks.len(),
{
    if tasks.len() > 0 {
        let init = tasks.drop_last();
        assert(tasks[tasks.len() - 1].current != row);
        assert forall|u: int| 0 <= u < init.len() implies (#[trigger] init[u]).current != row by {
            assert(init[u] == tasks[u]);
        }
        lemma_no_metric(init, metrics, row);
    }
}

/// A leg between known positions has what was measured; any other has zero.
pub proof fn only_legs_between_known_positions_are_measured(
    tasks: Seq<SegmentTask>,
    measured: Seq<SegmentMetric>,
    i: int,
)
    requires
        0 <= i < tasks.len(),
    ensures
        leg_metrics(tasks, measured).len() == tasks.len(),
        tasks[i].points is Some ==> leg_metrics(tasks, measured)[i] == measured[i],
        tasks[i].points is None ==> leg_metrics(tasks, measured)[i].distance == 0 && leg_metrics(
            tasks,
            measured,
        )[i].course == 0,
{
}

/// A route of the file is shared where a row of it in the file and one in the database name the same
/// waypoint; the routes of the file are those of its rows, each once.
pub proof fn routes_are_shared_at_a_common_waypoint(
    processed: Seq<AirwayRecord<Seq<char>>>,
    db_rows: Seq<AirwayRecord<Seq<char>>>,
    route: Seq<char>,
    i: int,
    j: int,
)
    requires
        0 <= i < processed.len() <= usize::MAX,
        0 <= j < db_rows.len() <= usize::MAX,
        processed[i].route_identifier == route,
        db_rows[j].route_identifier == route,
        processed[i].waypoint_identifier == db_rows[j].waypoint_identifier,
    ensures
        unique_routes(processed).no_duplicates(),
        unique_routes(processed).contains(route),
        text::collect(unique_routes(processed), shared_route(processed, db_rows)).contains(route),
{
    keyed::lemma_distinct(routes_of(processed));
    assert(routes_of(processed)[i] == route);
    assert(routes_of(processed).contains(route));
    assert(unique_routes(processed).contains(route));
    points_of_a_route_are_its_rows(processed, route, i);
    points_of_a_route_are_its_rows(db_rows, route, j);
    let csv = csv_points(processed, route);
    let db = db_points(db_rows, route);
    let c = CsvRoutePoint { waypoint: processed[i].waypoint_identifier, row: i as usize };
    let d = DbRoutePoint {
        waypoint: db_rows[j].waypoint_identifier,
        row: j as usize,
        seqno: db_rows[j].seqno,
    };
    let p = choose|p: int| 0 <= p < csv.len() && csv[p] == c;
    let q = choose|q: int| 0 <= q < db.len() && db[q] == d;
    assert(route_merge::csv_waypoints(csv)[p] == c.waypoint);
    assert(route_merge::db_waypoints(db)[q] == c.waypoint);
    let f = shared_route(processed, db_rows);
    text::lemma_collect_contains(unique_routes(processed), f, route);
    let k = choose|k: int|
        0 <= k < unique_routes(processed).len() && unique_routes(processed)[k] == route;
    assert(f(k, unique_routes(processed)[k]) == Some(route));
}

/// A route without a common waypoint is not shared, and every route that is shared is one of the
/// file.
pub proof fn routes_apart_are_not_shared(
    processed: Seq<AirwayRecord<Seq<char>>>,
    db_rows: Seq<AirwayRecord<Seq<char>>>,
    route: Seq<char>,
)
    requires
        text::collect(unique_routes(processed), shared_route(processed, db_rows)).contains(route),
    ensures
        exists|i: int|
            0 <= i < processed.len() && (#[trigger] processed[i]).route_identifier == route,
        route_merge::overlap(
            route_merge::db_waypoints(db_points(db_rows, route)),
            route_merge::csv_waypoints(csv_points(processed, route)),
        ),
{
    keyed::lemma_distinct(routes_of(processed));
    let f = shared_route(processed, db_rows);
    let routes = unique_routes(processed);
    text::lemma_collect_contains(routes, f, route);
    let k = choose|k: int| 0 <= k < routes.len() && f(k, #[trigger] routes[k]) == Some(route);
    assert(routes.contains(routes[k]));
    let i = choose|i: int|
        0 <= i < routes_of(processed).len() && routes_of(processed)[i] == routes[k];
    assert(processed[i].route_identifier == route);
}

/// The rows that are written are those of the plan, or those of the file where nothing was planned,
/// with the missing ends behind them.
pub proof fn planned_rows_come_before_the_missing_ends(
    csv_rows: Seq<ParsedAirwayCsvRow<Seq<char>, u64>>,
    db_rows: Seq<AirwayRecord<Seq<char>>>,
    resolver: IcaoCodeResolver,
    cache: AirwayCoordCache,
)
    ensures
        ({
            let processed = airway_rows::processed_rows(csv_rows, resolver, cache);
            let planned = merged_rows(processed, db_rows);
            let written = collected_rows(csv_rows, db_rows, resolver, cache);
            &&& planned.len() > 0 ==> planned.is_prefix_of(written)
            &&& planned.len() == 0 ==> processed.is_prefix_of(written)
            &&& planned.len() == row_plan(processed, db_rows).len()
        }),
{
    let processed = airway_rows::processed_rows(csv_rows, resolver, cache);
    let chosen = chosen_rows(processed, db_rows);
    let ends = end_rows(chosen, csv_rows, unique_routes(processed), resolver, cache);
    assert(chosen.is_prefix_of(chosen + ends));
}

} // verus!
