//! Finding the table that a procedure leg's fix belongs to.
//!
//! The candidates come out of the database. How near a candidate lies to a request is measured
//! outside of this library, which takes the outcome for each candidate.

use crate::db;
use crate::double::Point;
use crate::keyed::KeyedLists;
use crate::text;
use vstd::hash_map::StringHashMap;
use vstd::prelude::*;

verus! {

/// A table that a fix can be found in.
#[derive(Clone, Copy, PartialEq, Eq, Debug, Structural)]
pub enum RefTable {
    Airports,
    EnrouteNdbs,
    VhfNavaids,
    TerminalNdbs,
    EnrouteWaypoints,
    TerminalWaypoints,
    Runways,
    Localizers,
    Gls,
}

/// The column that is read besides identifier and position.
#[derive(Clone, Copy, PartialEq, Eq, Debug, Structural)]
pub enum ExtraColumn {
    Nothing,
    Region,
    Airport,
}

/// The name of a table.
pub open spec fn name_of(table: RefTable) -> Seq<char> {
    match table {
        RefTable::Airports => "tbl_airports"@,
        RefTable::EnrouteNdbs => "tbl_enroute_ndbnavaids"@,
        RefTable::VhfNavaids => "tbl_vhfnavaids"@,
        RefTable::TerminalNdbs => "tbl_terminal_ndbnavaids"@,
        RefTable::EnrouteWaypoints => "tbl_enroute_waypoints"@,
        RefTable::TerminalWaypoints => "tbl_terminal_waypoints"@,
        RefTable::Runways => "tbl_runways"@,
        RefTable::Localizers => "tbl_localizers_glideslopes"@,
        RefTable::Gls => "tbl_gls"@,
    }
}

/// The name of a table.
pub fn table_name(table: RefTable) -> (r: &'static str)
    ensures
        r@ == name_of(table),
{
    match table {
        RefTable::Airports => "tbl_airports",
        RefTable::EnrouteNdbs => "tbl_enroute_ndbnavaids",
        RefTable::VhfNavaids => "tbl_vhfnavaids",
        RefTable::TerminalNdbs => "tbl_terminal_ndbnavaids",
        RefTable::EnrouteWaypoints => "tbl_enroute_waypoints",
        RefTable::TerminalWaypoints => "tbl_terminal_waypoints",
        RefTable::Runways => "tbl_runways",
        RefTable::Localizers => "tbl_localizers_glideslopes",
        RefTable::Gls => "tbl_gls",
    }
}

/// The column of a table that holds the identifier.
pub open spec fn identifier_column(table: RefTable) -> Seq<char> {
    match table {
        RefTable::Airports => "airport_identifier"@,
        RefTable::EnrouteNdbs | RefTable::TerminalNdbs => "ndb_identifier"@,
        RefTable::VhfNavaids => "vor_identifier"@,
        RefTable::EnrouteWaypoints | RefTable::TerminalWaypoints => "waypoint_identifier"@,
        RefTable::Runways => "runway_identifier"@,
        RefTable::Localizers => "llz_identifier"@,
        RefTable::Gls => "gls_ref_path_identifier"@,
    }
}

fn identifier_column_of(table: RefTable) -> (r: &'static str)
    ensures
        r@ == identifier_column(table),
{
    match table {
        RefTable::Airports => "airport_identifier",
        RefTable::EnrouteNdbs | RefTable::TerminalNdbs => "ndb_identifier",
        RefTable::VhfNavaids => "vor_identifier",
        RefTable::EnrouteWaypoints | RefTable::TerminalWaypoints => "waypoint_identifier",
        RefTable::Runways => "runway_identifier",
        RefTable::Localizers => "llz_identifier",
        RefTable::Gls => "gls_ref_path_identifier",
    }
}

/// The columns of a table that hold latitude and longitude.
pub open spec fn position_columns(table: RefTable) -> Seq<char> {
    match table {
        RefTable::Airports => "airport_ref_latitude, airport_ref_longitude"@,
        RefTable::EnrouteNdbs | RefTable::TerminalNdbs => "ndb_latitude, ndb_longitude"@,
        RefTable::VhfNavaids => "vor_latitude, vor_longitude"@,
        RefTable::EnrouteWaypoints | RefTable::TerminalWaypoints
            => "waypoint_latitude, waypoint_longitude"@,
        RefTable::Runways => "runway_latitude, runway_longitude"@,
        RefTable::Localizers => "llz_latitude, llz_longitude"@,
        RefTable::Gls => "station_latitude, station_longitude"@,
    }
}

fn position_columns_of(table: RefTable) -> (r: &'static str)
    ensures
        r@ == position_columns(table),
{
    match table {
        RefTable::Airports => "airport_ref_latitude, airport_ref_longitude",
        RefTable::EnrouteNdbs | RefTable::TerminalNdbs => "ndb_latitude, ndb_longitude",
        RefTable::VhfNavaids => "vor_latitude, vor_longitude",
        RefTable::EnrouteWaypoints
        | RefTable::TerminalWaypoints => "waypoint_latitude, waypoint_longitude",
        RefTable::Runways => "runway_latitude, runway_longitude",
        RefTable::Localizers => "llz_latitude, llz_longitude",
        RefTable::Gls => "station_latitude, station_longitude",
    }
}

/// The further column of a query, with the comma before it.
pub open spec fn extra_column(extra: ExtraColumn) -> Seq<char> {
    match extra {
        ExtraColumn::Nothing => ""@,
        ExtraColumn::Region => ", region_code"@,
        ExtraColumn::Airport => ", airport_identifier"@,
    }
}

fn extra_column_of(extra: ExtraColumn) -> (r: &'static str)
    ensures
        r@ == extra_column(extra),
{
    match extra {
        ExtraColumn::Nothing => "",
        ExtraColumn::Region => ", region_code",
        ExtraColumn::Airport => ", airport_identifier",
    }
}

/// The query for all rows of a table.
pub open spec fn select_all(table: RefTable, extra: ExtraColumn) -> Seq<char> {
    "SELECT "@ + identifier_column(table) + ", "@ + position_columns(table) + extra_column(extra)
        + " FROM "@ + name_of(table)
}

/// The query for the rows of a table with one of `n` identifiers.
pub open spec fn select_some(table: RefTable, extra: ExtraColumn, n: nat) -> Seq<char> {
    select_all(table, extra) + " WHERE "@ + identifier_column(table) + " IN ("@
        + db::placeholders(n) + ")"@
}

fn select_all_text(table: RefTable, extra: ExtraColumn) -> (sql: String)
    ensures
        sql@ == select_all(table, extra),
{
    let mut sql: String = text::copy("SELECT ");
    sql.append(identifier_column_of(table));
    sql.append(", ");
    sql.append(position_columns_of(table));
    sql.append(extra_column_of(extra));
    sql.append(" FROM ");
    sql.append(table_name(table));
    sql
}

fn select_some_text(table: RefTable, extra: ExtraColumn, n: usize) -> (sql: String)
    ensures
        sql@ == select_some(table, extra, n as nat),
{
    let mut sql: String = select_all_text(table, extra);
    sql.append(" WHERE ");
    sql.append(identifier_column_of(table));
    sql.append(" IN (");
    let variables: String = db::repeat_text("?", ", ", n);
    sql.append(variables.as_str());
    sql.append(")");
    sql
}

/// A query for candidates, with the values that it binds.
#[verifier::ext_equal]
pub struct RefTableQuery<T = String, L = Vec<String>> {
    pub table: RefTable,
    pub extra: ExtraColumn,
    pub sql: T,
    pub parameters: L,
}

impl View for RefTableQuery {
    type V = RefTableQuery<Seq<char>, Seq<Seq<char>>>;

    open spec fn view(&self) -> Self::V {
        RefTableQuery {
            table: self.table,
            extra: self.extra,
            sql: self.sql@,
            parameters: text::views(self.parameters@),
        }
    }
}

/// The tables to read, in order. Where rows are asked for by identifier, each table is read once;
/// where all rows are read, terminal beacons come both without and with their airport.
pub open spec fn table_order(scoped: bool) -> Seq<(RefTable, ExtraColumn)> {
    if scoped {
        seq![
            (RefTable::Airports, ExtraColumn::Nothing),
            (RefTable::EnrouteNdbs, ExtraColumn::Nothing),
            (RefTable::VhfNavaids, ExtraColumn::Nothing),
            (RefTable::TerminalNdbs, ExtraColumn::Airport),
            (RefTable::EnrouteWaypoints, ExtraColumn::Nothing),
            (RefTable::TerminalWaypoints, ExtraColumn::Region),
            (RefTable::Runways, ExtraColumn::Airport),
            (RefTable::Localizers, ExtraColumn::Airport),
            (RefTable::Gls, ExtraColumn::Airport),
        ]
    } else {
        seq![
            (RefTable::Airports, ExtraColumn::Nothing),
            (RefTable::EnrouteNdbs, ExtraColumn::Nothing),
            (RefTable::VhfNavaids, ExtraColumn::Nothing),
            (RefTable::TerminalNdbs, ExtraColumn::Nothing),
            (RefTable::EnrouteWaypoints, ExtraColumn::Nothing),
            (RefTable::TerminalWaypoints, ExtraColumn::Region),
            (RefTable::TerminalNdbs, ExtraColumn::Airport),
            (RefTable::Runways, ExtraColumn::Airport),
            (RefTable::Localizers, ExtraColumn::Airport),
            (RefTable::Gls, ExtraColumn::Airport),
        ]
    }
}

fn table_list(scoped: bool) -> (r: Vec<(RefTable, ExtraColumn)>)
    ensures
        r@ == table_order(scoped),
{
    let r: Vec<(RefTable, ExtraColumn)> = if scoped {
        vec![
            (RefTable::Airports, ExtraColumn::Nothing),
            (RefTable::EnrouteNdbs, ExtraColumn::Nothing),
            (RefTable::VhfNavaids, ExtraColumn::Nothing),
            (RefTable::TerminalNdbs, ExtraColumn::Airport),
            (RefTable::EnrouteWaypoints, ExtraColumn::Nothing),
            (RefTable::TerminalWaypoints, ExtraColumn::Region),
            (RefTable::Runways, ExtraColumn::Airport),
            (RefTable::Localizers, ExtraColumn::Airport),
            (RefTable::Gls, ExtraColumn::Airport),
        ]
    } else {
        vec![
            (RefTable::Airports, ExtraColumn::Nothing),
            (RefTable::EnrouteNdbs, ExtraColumn::Nothing),
            (RefTable::VhfNavaids, ExtraColumn::Nothing),
            (RefTable::TerminalNdbs, ExtraColumn::Nothing),
            (RefTable::EnrouteWaypoints, ExtraColumn::Nothing),
            (RefTable::TerminalWaypoints, ExtraColumn::Region),
            (RefTable::TerminalNdbs, ExtraColumn::Airport),
            (RefTable::Runways, ExtraColumn::Airport),
            (RefTable::Localizers, ExtraColumn::Airport),
            (RefTable::Gls, ExtraColumn::Airport),
        ]
    };
    assert(r@ =~= table_order(scoped));
    r
}

/// The query of a table for one run of identifiers.
pub open spec fn query_for(
    source: (RefTable, ExtraColumn),
    identifiers: Seq<Seq<char>>,
) -> RefTableQuery<Seq<char>, Seq<Seq<char>>> {
    RefTableQuery {
        table: source.0,
        extra: source.1,
        sql: select_some(source.0, source.1, identifiers.len()),
        parameters: identifiers,
    }
}

/// The queries of one table for the wanted identifiers.
pub open spec fn scoped_queries(identifiers: Seq<Seq<char>>) -> spec_fn(
    int,
    (RefTable, ExtraColumn),
) -> Seq<RefTableQuery<Seq<char>, Seq<Seq<char>>>> {
    |i: int, source: (RefTable, ExtraColumn)|
        db::chunks(identifiers, db::SQLITE_MAX_VARIABLE_NUMBER as int).map_values(
            |run: Seq<Seq<char>>| query_for(source, run),
        )
}

/// The query of one table for all of its rows.
pub open spec fn full_query() -> spec_fn(int, (RefTable, ExtraColumn)) -> Seq<
    RefTableQuery<Seq<char>, Seq<Seq<char>>>,
> {
    |i: int, source: (RefTable, ExtraColumn)|
        seq![
            RefTableQuery {
                table: source.0,
                extra: source.1,
                sql: select_all(source.0, source.1),
                parameters: Seq::empty(),
            },
        ]
}

/// The queries that load the candidates: for the wanted identifiers, or for all.
pub open spec fn ref_queries(required: Option<Seq<Seq<char>>>) -> Seq<
    RefTableQuery<Seq<char>, Seq<Seq<char>>>,
> {
    match required {
        Some(identifiers) => text::flat_collect(table_order(true), scoped_queries(identifiers)),
        None => text::flat_collect(table_order(false), full_query()),
    }
}

fn push_scoped_queries(
    out: &mut Vec<RefTableQuery>,
    source: (RefTable, ExtraColumn),
    identifiers: &Vec<String>,
)
    ensures
        text::views(final(out)@) == text::views(old(out)@) + scoped_queries(
            text::views(identifiers@),
        )(0, source),
{
    let runs: Vec<Vec<String>> = db::chunk_texts(identifiers, db::SQLITE_MAX_VARIABLE_NUMBER);
    let ghost f = |run: Seq<Seq<char>>| query_for(source, run);
    let ghost cut = db::list_views(runs@);
    let ghost goal = cut.map_values(f);
    let ghost before = text::views(out@);
    assert(before =~= before + goal.take(0));
    for parameters in it: runs
        invariant
            db::list_views(it.seq()) == cut,
            f == (|run: Seq<Seq<char>>| query_for(source, run)),
            goal == cut.map_values(f),
            text::views(out@) == before + goal.take(it.index() as int),
    {
        let ghost i = it.index() as int;
        assert(cut[i] == text::views(parameters@));
        let query = RefTableQuery {
            table: source.0,
            extra: source.1,
            sql: select_some_text(source.0, source.1, parameters.len()),
            parameters,
        };
        proof {
            text::lemma_views_push(out@, query);
            assert(query@ == goal[i]);
            assert((before + goal.take(i)).push(query@) =~= before + goal.take(i + 1));
        }
        out.push(query);
    }
    assert(goal.take(goal.len() as int) == goal);
}

/// The queries that load the candidates.
pub fn ref_table_queries(required: Option<&Vec<String>>) -> (out: Vec<RefTableQuery>)
    ensures
        text::views(out@) == ref_queries(
            match required {
                Some(identifiers) => Some(text::views(identifiers@)),
                None => None,
            },
        ),
{
    let mut out: Vec<RefTableQuery> = Vec::new();
    match required {
        Some(identifiers) => {
            let tables: Vec<(RefTable, ExtraColumn)> = table_list(true);
            let ghost f = scoped_queries(text::views(identifiers@));
            assert(tables@.take(0).len() == 0);
            assert(text::views(out@) =~= text::flat_collect(tables@.take(0), f));
            for i in 0..tables.len()
                invariant
                    f == scoped_queries(text::views(identifiers@)),
                    text::views(out@) == text::flat_collect(tables@.take(i as int), f),
            {
                proof {
                    text::lemma_flat_collect_step(tables@, f, i as int);
                    assert(f(0, tables@[i as int]) == f(i as int, tables@[i as int]));
                }
                push_scoped_queries(&mut out, tables[i], identifiers);
            }
            assert(tables@.take(tables@.len() as int) == tables@);
        },
        None => {
            let tables: Vec<(RefTable, ExtraColumn)> = table_list(false);
            let ghost f = full_query();
            assert(tables@.take(0).len() == 0);
            assert(text::views(out@) =~= text::flat_collect(tables@.take(0), f));
            for i in 0..tables.len()
                invariant
                    f == full_query(),
                    text::views(out@) == text::flat_collect(tables@.take(i as int), f),
            {
                let query = RefTableQuery {
                    table: tables[i].0,
                    extra: tables[i].1,
                    sql: select_all_text(tables[i].0, tables[i].1),
                    parameters: Vec::new(),
                };
                proof {
                    text::lemma_flat_collect_step(tables@, f, i as int);
                    text::lemma_views_push(out@, query);
                    assert(query@.parameters =~= Seq::empty());
                    assert(f(i as int, tables@[i as int]) =~= seq![query@]);
                }
                out.push(query);
                assert(text::views(out@) =~= text::flat_collect(tables@.take(i + 1), f));
            }
            assert(tables@.take(tables@.len() as int) == tables@);
        },
    }
    out
}

/// How the candidates were loaded.
#[derive(Clone, Copy, PartialEq, Eq, Debug, Structural)]
pub enum RefLoad {
    /// All rows, over one connection.
    Full,
    /// The rows with wanted identifiers, over one connection.
    Scoped,
    /// The rows with wanted identifiers, each table over a connection of its own.
    Parallel,
}

/// One row that a query for candidates returned.
#[verifier::ext_equal]
pub struct RefRow<T = String> {
    pub identifier: T,
    pub latitude: Option<u64>,
    pub longitude: Option<u64>,
    pub extra: Option<T>,
}

impl View for RefRow {
    type V = RefRow<Seq<char>>;

    open spec fn view(&self) -> Self::V {
        RefRow {
            identifier: self.identifier@,
            latitude: self.latitude,
            longitude: self.longitude,
            extra: text::opt(self.extra),
        }
    }
}

/// The rows that one query returned.
#[verifier::ext_equal]
pub struct RefBatch<L = Vec<RefRow>> {
    pub table: RefTable,
    pub extra: ExtraColumn,
    pub rows: L,
}

impl View for RefBatch {
    type V = RefBatch<Seq<RefRow<Seq<char>>>>;

    open spec fn view(&self) -> Self::V {
        RefBatch { table: self.table, extra: self.extra, rows: text::views(self.rows@) }
    }
}

/// A fix in one of the tables.
#[verifier::ext_equal]
pub struct RefCandidate<T = String> {
    pub identifier: T,
    pub table: RefTable,
    pub point: Point,
    pub region: Option<T>,
    pub airport: Option<T>,
}

impl View for RefCandidate {
    type V = RefCandidate<Seq<char>>;

    open spec fn view(&self) -> Self::V {
        RefCandidate {
            identifier: self.identifier@,
            table: self.table,
            point: self.point,
            region: text::opt(self.region),
            airport: text::opt(self.airport),
        }
    }
}

/// The airport that a row gives: one with a position. Among all rows it needs an identifier.
pub open spec fn row_airport(load: RefLoad, row: RefRow<Seq<char>>) -> Option<(Seq<char>, Point)> {
    match (row.latitude, row.longitude) {
        (Some(latitude), Some(longitude)) if load != RefLoad::Full || row.identifier.len() > 0
            => Some((row.identifier, Point { latitude, longitude })),
        _ => None,
    }
}

/// The candidate that a row gives: one with a position, and with an identifier unless the tables
/// were read in parallel.
pub open spec fn row_candidate(
    load: RefLoad,
    table: RefTable,
    extra: ExtraColumn,
    row: RefRow<Seq<char>>,
) -> Option<RefCandidate<Seq<char>>> {
    match (row.latitude, row.longitude) {
        (Some(latitude), Some(longitude)) if load == RefLoad::Parallel || row.identifier.len() > 0
            => Some(
            RefCandidate {
                identifier: row.identifier,
                table,
                point: Point { latitude, longitude },
                region: if extra == ExtraColumn::Region {
                    row.extra
                } else {
                    None
                },
                airport: if extra == ExtraColumn::Airport {
                    row.extra
                } else {
                    None
                },
            },
        ),
        _ => None,
    }
}

/// The reading of airports, row by row.
pub open spec fn airport_reader(load: RefLoad) -> spec_fn(int, RefRow<Seq<char>>) -> Option<
    (Seq<char>, Point),
> {
    |i: int, row: RefRow<Seq<char>>| row_airport(load, row)
}

/// The reading of candidates, row by row.
pub open spec fn candidate_reader(load: RefLoad, table: RefTable, extra: ExtraColumn) -> spec_fn(
    int,
    RefRow<Seq<char>>,
) -> Option<RefCandidate<Seq<char>>> {
    |i: int, row: RefRow<Seq<char>>| row_candidate(load, table, extra, row)
}

/// The airports of one batch.
pub open spec fn batch_airports(load: RefLoad) -> spec_fn(
    int,
    RefBatch<Seq<RefRow<Seq<char>>>>,
) -> Seq<(Seq<char>, Point)> {
    |i: int, batch: RefBatch<Seq<RefRow<Seq<char>>>>|
        if batch.table == RefTable::Airports {
            text::collect(batch.rows, airport_reader(load))
        } else {
            Seq::empty()
        }
}

/// The candidates of one batch.
pub open spec fn batch_candidates(load: RefLoad) -> spec_fn(
    int,
    RefBatch<Seq<RefRow<Seq<char>>>>,
) -> Seq<RefCandidate<Seq<char>>> {
    |i: int, batch: RefBatch<Seq<RefRow<Seq<char>>>>|
        if batch.table == RefTable::Airports {
            Seq::empty()
        } else {
            text::collect(batch.rows, candidate_reader(load, batch.table, batch.extra))
        }
}

/// The position of the first airport with the identifier.
pub open spec fn first_airport(
    airports: Seq<(Seq<char>, Point)>,
    identifier: Seq<char>,
) -> Option<Point>
    decreases airports.len(),
{
    if airports.len() == 0 {
        None
    } else {
        match first_airport(airports.drop_last(), identifier) {
            Some(point) => Some(point),
            None => if airports.last().0 == identifier {
                Some(airports.last().1)
            } else {
                None
            },
        }
    }
}

/// The choice of the candidates with an identifier.
pub open spec fn candidate_chooser(identifier: Seq<char>) -> spec_fn(
    RefCandidate<Seq<char>>,
) -> bool {
    |candidate: RefCandidate<Seq<char>>| candidate.identifier == identifier
}

/// A request for the table of a fix.
pub struct RefMatchRequest<'a> {
    pub identifier: Option<&'a str>,
    pub latitude: Option<u64>,
    pub longitude: Option<u64>,
    pub is_airport: bool,
    pub airport_id: Option<&'a str>,
}

/// The table and position that a request found.
#[derive(Clone, Copy, PartialEq, Eq, Debug, Structural)]
pub struct RefMatchResult {
    pub ref_table: Option<RefTable>,
    pub latitude: Option<u64>,
    pub longitude: Option<u64>,
}

/// The result of a request that found nothing.
pub open spec fn no_match() -> RefMatchResult {
    RefMatchResult { ref_table: None, latitude: None, longitude: None }
}

/// The result of a request that found a fix.
pub open spec fn match_at(table: RefTable, point: Point) -> RefMatchResult {
    RefMatchResult {
        ref_table: Some(table),
        latitude: Some(point.latitude),
        longitude: Some(point.longitude),
    }
}

/// Whether a candidate fits the airport of the request: one of another airport does not, nor does
/// a terminal waypoint of another region.
pub open spec fn fits_airport(
    candidate: RefCandidate<Seq<char>>,
    airport_id: Option<Seq<char>>,
) -> bool {
    airport_id is Some ==> {
        &&& candidate.airport is Some ==> candidate.airport == airport_id
        &&& candidate.table == RefTable::TerminalWaypoints ==> candidate.region == airport_id
    }
}

/// The first candidate that lies near and fits the airport.
pub open spec fn first_match(
    candidates: Seq<RefCandidate<Seq<char>>>,
    near: Seq<bool>,
    airport_id: Option<Seq<char>>,
) -> RefMatchResult
    decreases candidates.len(),
{
    if candidates.len() == 0 || near.len() == 0 {
        no_match()
    } else if near[0] && fits_airport(candidates[0], airport_id) {
        match_at(candidates[0].table, candidates[0].point)
    } else {
        first_match(candidates.skip(1), near.skip(1), airport_id)
    }
}

fn is_same_option(a: &Option<String>, b: &str) -> (r: bool)
    ensures
        r == (text::opt(*a) == Some(b@)),
{
    match a {
        Some(value) => text::same(value.as_str(), b),
        None => false,
    }
}

fn is_fit(candidate: &RefCandidate, airport_id: Option<&str>) -> (r: bool)
    ensures
        r == fits_airport(candidate@, text::opt(airport_id)),
{
    match airport_id {
        Some(airport) => {
            if candidate.airport.is_some() && !is_same_option(&candidate.airport, airport) {
                return false;
            }
            if candidate.table == RefTable::TerminalWaypoints && !is_same_option(
                &candidate.region,
                airport,
            ) {
                return false;
            }
            true
        },
        None => true,
    }
}

fn find_match(candidates: &Vec<RefCandidate>, near: &Vec<bool>, airport_id: Option<&str>) -> (r:
    RefMatchResult)
    ensures
        r == first_match(text::views(candidates@), near@, text::opt(airport_id)),
{
    let ghost all = text::views(candidates@);
    let mut i: usize = 0;
    assert(all.skip(0) == all && near@.skip(0) == near@);
    while i < candidates.len() && i < near.len()
        invariant
            i <= candidates@.len(),
            i <= near@.len(),
            all == text::views(candidates@),
            first_match(all, near@, text::opt(airport_id)) == first_match(
                all.skip(i as int),
                near@.skip(i as int),
                text::opt(airport_id),
            ),
        decreases candidates@.len() - i,
    {
        assert(all.skip(i as int)[0] == candidates@[i as int]@);
        assert(near@.skip(i as int)[0] == near@[i as int]);
        if near[i] && is_fit(&candidates[i], airport_id) {
            return RefMatchResult {
                ref_table: Some(candidates[i].table),
                latitude: Some(candidates[i].point.latitude),
                longitude: Some(candidates[i].point.longitude),
            };
        }
        assert(all.skip(i as int).skip(1) == all.skip(i + 1));
        assert(near@.skip(i as int).skip(1) == near@.skip(i + 1));
        i = i + 1;
    }
    RefMatchResult { ref_table: None, latitude: None, longitude: None }
}

/// The candidates by identifier, and the airports.
pub struct RefTableMatcher {
    airports: StringHashMap<Point>,
    candidates: KeyedLists<RefCandidate>,
}

impl RefTableMatcher {
    /// The collection is well formed.
    pub closed spec fn wf(self) -> bool {
        self.candidates.wf()
    }

    /// The position of an airport.
    pub closed spec fn airport_at(self, identifier: Seq<char>) -> Option<Point> {
        if self.airports@.contains_key(identifier) {
            Some(self.airports@[identifier])
        } else {
            None
        }
    }

    /// The candidates with an identifier, in order of arrival.
    pub closed spec fn candidates_at(self, identifier: Seq<char>) -> Seq<RefCandidate<Seq<char>>> {
        text::views(self.candidates.at(identifier))
    }

    /// What the matcher knows is just what the logs of airports and candidates hold.
    pub open spec fn holds(
        self,
        airports: Seq<(Seq<char>, Point)>,
        candidates: Seq<RefCandidate<Seq<char>>>,
    ) -> bool {
        &&& forall|id: Seq<char>| #[trigger] self.airport_at(id) == first_airport(airports, id)
        &&& forall|id: Seq<char>| #[trigger]
            self.candidates_at(id) == candidates.filter(candidate_chooser(id))
    }

    fn new() -> (r: Self)
        ensures
            r.wf(),
            r.holds(Seq::empty(), Seq::empty()),
    {
        let r = RefTableMatcher { airports: StringHashMap::new(), candidates: KeyedLists::new() };
        proof {
            reveal(Seq::filter);
            assert forall|id: Seq<char>| #[trigger] r.candidates_at(id) == Seq::empty().filter(
                candidate_chooser(id),
            ) by {
                assert(r.candidates.at(id).len() == 0);
                assert(r.candidates_at(id) =~= Seq::empty());
            }
        }
        r
    }

    fn add_airport(
        &mut self,
        row: &RefRow,
        load: RefLoad,
        Ghost(airports): Ghost<Seq<(Seq<char>, Point)>>,
        Ghost(candidates): Ghost<Seq<RefCandidate<Seq<char>>>>,
    )
        requires
            old(self).wf(),
            old(self).holds(airports, candidates),
        ensures
            final(self).wf(),
            final(self).holds(
                match row_airport(load, row@) {
                    Some(airport) => airports.push(airport),
                    None => airports,
                },
                candidates,
            ),
    {
        match (row.latitude, row.longitude) {
            (Some(latitude), Some(longitude)) => {
                if load == RefLoad::Full && text::is_empty(row.identifier.as_str()) {
                    return;
                }
                let point = Point { latitude, longitude };
                if !self.airports.contains_key(row.identifier.as_str()) {
                    self.airports.insert(row.identifier.clone(), point);
                }
                proof {
                    let next = airports.push((row.identifier@, point));
                    assert(next.drop_last() == airports);
                    assert forall|id: Seq<char>| #[trigger] self.airport_at(id) == first_airport(
                        next,
                        id,
                    ) by {
                        assert(old(self).airport_at(id) == first_airport(airports, id));
                    }
                    assert forall|id: Seq<char>| #[trigger]
                        self.candidates_at(id) == candidates.filter(candidate_chooser(id)) by {
                        assert(old(self).candidates_at(id) == candidates.filter(
                            candidate_chooser(id),
                        ));
                    }
                }
            },
            _ => {},
        }
    }

    fn add_candidate(
        &mut self,
        row: &RefRow,
        load: RefLoad,
        table: RefTable,
        extra: ExtraColumn,
        Ghost(airports): Ghost<Seq<(Seq<char>, Point)>>,
        Ghost(candidates): Ghost<Seq<RefCandidate<Seq<char>>>>,
    )
        requires
            old(self).wf(),
            old(self).holds(airports, candidates),
        ensures
            final(self).wf(),
            final(self).holds(
                airports,
                match row_candidate(load, table, extra, row@) {
                    Some(candidate) => candidates.push(candidate),
                    None => candidates,
                },
            ),
    {
        match (row.latitude, row.longitude) {
            (Some(latitude), Some(longitude)) => {
                if load != RefLoad::Parallel && text::is_empty(row.identifier.as_str()) {
                    return;
                }
                let candidate = RefCandidate {
                    identifier: row.identifier.clone(),
                    table,
                    point: Point { latitude, longitude },
                    region: if extra == ExtraColumn::Region {
                        text::copy_opt(&row.extra)
                    } else {
                        None
                    },
                    airport: if extra == ExtraColumn::Airport {
                        text::copy_opt(&row.extra)
                    } else {
                        None
                    },
                };
                let ghost model = candidate@;
                proof {
                    text::lemma_views_push(self.candidates.at(row.identifier@), candidate);
                }
                self.candidates.push(row.identifier.as_str(), candidate);
                proof {
                    assert(row_candidate(load, table, extra, row@) == Some(model));
                    let next = candidates.push(model);
                    assert forall|id: Seq<char>| #[trigger]
                        self.candidates_at(id) == next.filter(candidate_chooser(id)) by {
                        text::lemma_filter_push(candidates, model, candidate_chooser(id));
                        assert(old(self).candidates_at(id) == candidates.filter(
                            candidate_chooser(id),
                        ));
                    }
                    assert forall|id: Seq<char>| #[trigger] self.airport_at(id) == first_airport(
                        airports,
                        id,
                    ) by {
                        assert(old(self).airport_at(id) == first_airport(airports, id));
                    }
                }
            },
            _ => {},
        }
    }

    fn add_batch(
        &mut self,
        batch: &RefBatch,
        load: RefLoad,
        Ghost(airports): Ghost<Seq<(Seq<char>, Point)>>,
        Ghost(candidates): Ghost<Seq<RefCandidate<Seq<char>>>>,
    )
        requires
            old(self).wf(),
            old(self).holds(airports, candidates),
        ensures
            final(self).wf(),
            final(self).holds(
                airports + batch_airports(load)(0, batch@),
                candidates + batch_candidates(load)(0, batch@),
            ),
    {
        let ghost rows = text::views(batch.rows@);
        assert(rows.take(0).len() == 0);
        assert(rows.take(batch.rows@.len() as int) == rows);
        if batch.table == RefTable::Airports {
            let ghost f = airport_reader(load);
            assert(airports + text::collect(rows.take(0), f) =~= airports);
            for i in 0..batch.rows.len()
                invariant
                    self.wf(),
                    rows == text::views(batch.rows@),
                    f == airport_reader(load),
                    self.holds(airports + text::collect(rows.take(i as int), f), candidates),
            {
                let ghost before = airports + text::collect(rows.take(i as int), f);
                proof {
                    text::lemma_collect_step(rows, f, i as int);
                    assert(rows[i as int] == batch.rows@[i as int]@);
                }
                self.add_airport(&batch.rows[i], load, Ghost(before), Ghost(candidates));
                proof {
                    match row_airport(load, rows[i as int]) {
                        Some(airport) => {
                            assert(before.push(airport) =~= airports + text::collect(
                                rows.take(i as int),
                                f,
                            ).push(airport));
                        },
                        None => {},
                    }
                }
            }
            assert(candidates + Seq::<RefCandidate<Seq<char>>>::empty() =~= candidates);
        } else {
            let ghost f = candidate_reader(load, batch.table, batch.extra);
            assert(candidates + text::collect(rows.take(0), f) =~= candidates);
            for i in 0..batch.rows.len()
                invariant
                    self.wf(),
                    rows == text::views(batch.rows@),
                    f == candidate_reader(load, batch.table, batch.extra),
                    self.holds(airports, candidates + text::collect(rows.take(i as int), f)),
            {
                let ghost before = candidates + text::collect(rows.take(i as int), f);
                proof {
                    text::lemma_collect_step(rows, f, i as int);
                    assert(rows[i as int] == batch.rows@[i as int]@);
                }
                self.add_candidate(
                    &batch.rows[i],
                    load,
                    batch.table,
                    batch.extra,
                    Ghost(airports),
                    Ghost(before),
                );
                proof {
                    match row_candidate(load, batch.table, batch.extra, rows[i as int]) {
                        Some(candidate) => {
                            assert(before.push(candidate) =~= candidates + text::collect(
                                rows.take(i as int),
                                f,
                            ).push(candidate));
                        },
                        None => {},
                    }
                }
            }
            assert(airports + Seq::<(Seq<char>, Point)>::empty() =~= airports);
        }
    }

    /// The matcher of the rows that the queries returned, in the order of the queries.
    pub fn create_ref_table_matcher_from_db(load: RefLoad, batches: &Vec<RefBatch>) -> (r: Self)
        ensures
            r.wf(),
            r.holds(
                text::flat_collect(text::views(batches@), batch_airports(load)),
                text::flat_collect(text::views(batches@), batch_candidates(load)),
            ),
    {
        let mut r: RefTableMatcher = RefTableMatcher::new();
        let ghost all = text::views(batches@);
        let ghost f = batch_airports(load);
        let ghost g = batch_candidates(load);
        assert(all.take(0).len() == 0);
        assert(text::flat_collect(all.take(0), f) =~= Seq::empty());
        assert(text::flat_collect(all.take(0), g) =~= Seq::empty());
        for i in 0..batches.len()
            invariant
                r.wf(),
                all == text::views(batches@),
                f == batch_airports(load),
                g == batch_candidates(load),
                r.holds(
                    text::flat_collect(all.take(i as int), f),
                    text::flat_collect(all.take(i as int), g),
                ),
        {
            proof {
                text::lemma_flat_collect_step(all, f, i as int);
                text::lemma_flat_collect_step(all, g, i as int);
                assert(all[i as int] == batches@[i as int]@);
                assert(f(0, all[i as int]) == f(i as int, all[i as int]));
                assert(g(0, all[i as int]) == g(i as int, all[i as int]));
            }
            r.add_batch(
                &batches[i],
                load,
                Ghost(text::flat_collect(all.take(i as int), f)),
                Ghost(text::flat_collect(all.take(i as int), g)),
            );
        }
        assert(all.take(batches@.len() as int) == all);
        r
    }

    /// The positions of the candidates that a request has to be measured against.
    pub fn candidate_points(&self, request: &RefMatchRequest<'_>) -> (out: Vec<Point>)
        requires
            self.wf(),
        ensures
            match request.identifier {
                Some(identifier) if !request.is_airport => {
                    let candidates = self.candidates_at(identifier@);
                    &&& out@.len() == candidates.len()
                    &&& forall|i: int|
                        0 <= i < out@.len() ==> #[trigger] out@[i] == candidates[i].point
                },
                _ => out@.len() == 0,
            },
    {
        let mut out: Vec<Point> = Vec::new();
        match request.identifier {
            Some(identifier) => {
                if !request.is_airport {
                    match self.candidates.get(identifier) {
                        Some(candidates) => {
                            for i in 0..candidates.len()
                                invariant
                                    candidates@ == self.candidates.at(identifier@),
                                    out@.len() == i,
                                    forall|k: int|
                                        0 <= k < i ==> #[trigger] out@[k] == self.candidates_at(
                                            identifier@,
                                        )[k].point,
                            {
                                out.push(candidates[i].point);
                            }
                        },
                        None => {},
                    }
                }
            },
            None => {},
        }
        out
    }

    /// What a request finds. An airport is found by identifier alone. Any other fix needs a
    /// position; `near` tells of each candidate with the identifier whether it lies near that.
    pub open spec fn matched(
        self,
        identifier: Option<Seq<char>>,
        positioned: bool,
        is_airport: bool,
        airport_id: Option<Seq<char>>,
        near: Seq<bool>,
    ) -> RefMatchResult {
        match identifier {
            Some(name) => if is_airport {
                match self.airport_at(name) {
                    Some(point) => match_at(RefTable::Airports, point),
                    None => no_match(),
                }
            } else if positioned {
                first_match(self.candidates_at(name), near, airport_id)
            } else {
                no_match()
            },
            None => no_match(),
        }
    }

    /// Finds the table of a fix.
    pub fn match_request(&self, request: &RefMatchRequest<'_>, near: &Vec<bool>) -> (r:
        RefMatchResult)
        requires
            self.wf(),
        ensures
            r == self.matched(
                text::opt(request.identifier),
                request.latitude is Some && request.longitude is Some,
                request.is_airport,
                text::opt(request.airport_id),
                near@,
            ),
    {
        let identifier: &str = match request.identifier {
            Some(identifier) => identifier,
            None => {
                return RefMatchResult { ref_table: None, latitude: None, longitude: None };
            },
        };
        if request.is_airport {
            return match self.airports.get(identifier) {
                Some(point) => RefMatchResult {
                    ref_table: Some(RefTable::Airports),
                    latitude: Some(point.latitude),
                    longitude: Some(point.longitude),
                },
                None => RefMatchResult { ref_table: None, latitude: None, longitude: None },
            };
        }
        if request.latitude.is_none() || request.longitude.is_none() {
            return RefMatchResult { ref_table: None, latitude: None, longitude: None };
        }
        match self.candidates.get(identifier) {
            Some(candidates) => find_match(candidates, near, request.airport_id),
            None => {
                assert(self.candidates_at(identifier@).len() == 0);
                RefMatchResult { ref_table: None, latitude: None, longitude: None }
            },
        }
    }

    /// Finds the tables of several fixes; `near` tells of each request which candidates lie near.
    pub fn match_batch_native(
        &self,
        requests: &Vec<RefMatchRequest<'_>>,
        near: &Vec<Vec<bool>>,
    ) -> (out: Vec<RefMatchResult>)
        requires
            self.wf(),
            near@.len() == requests@.len(),
        ensures
            out@.len() == requests@.len(),
            forall|i: int|
                0 <= i < out@.len() ==> #[trigger] out@[i] == self.matched(
                    text::opt(requests@[i].identifier),
                    requests@[i].latitude is Some && requests@[i].longitude is Some,
                    requests@[i].is_airport,
                    text::opt(requests@[i].airport_id),
                    near@[i]@,
                ),
    {
        let mut out: Vec<RefMatchResult> = Vec::new();
        for i in 0..requests.len()
            invariant
                self.wf(),
                near@.len() == requests@.len(),
                out@.len() == i,
                forall|k: int|
                    0 <= k < i ==> #[trigger] out@[k] == self.matched(
                        text::opt(requests@[k].identifier),
                        requests@[k].latitude is Some && requests@[k].longitude is Some,
                        requests@[k].is_airport,
                        text::opt(requests@[k].airport_id),
                        near@[k]@,
                    ),
        {
            let result: RefMatchResult = self.match_request(&requests[i], &near[i]);
            out.push(result);
        }
        out
    }
}

/// The readers of a scoped and of a parallel load choose the same candidates with an identifier
/// from the rows of a table.
proof fn lemma_same_candidates(
    rows: Seq<RefRow<Seq<char>>>,
    table: RefTable,
    extra: ExtraColumn,
    identifier: Seq<char>,
)
    requires
        identifier.len() > 0 || (forall|i: int|
            0 <= i < rows.len() ==> (#[trigger] rows[i]).identifier.len() > 0),
    ensures
        text::collect(rows, candidate_reader(RefLoad::Parallel, table, extra)).filter(
            candidate_chooser(identifier),
        ) == text::collect(rows, candidate_reader(RefLoad::Scoped, table, extra)).filter(
            candidate_chooser(identifier),
        ),
    decreases rows.len(),
{
    if rows.len() > 0 {
        let init = rows.drop_last();
        let row = rows.last();
        let keep = candidate_chooser(identifier);
        assert forall|i: int| 0 <= i < init.len() && identifier.len() == 0 implies (
        #[trigger] init[i]).identifier.len() > 0 by {
            assert(rows[i] == init[i]);
        }
        lemma_same_candidates(init, table, extra, identifier);
        let parallel = text::collect(init, candidate_reader(RefLoad::Parallel, table, extra));
        let scoped = text::collect(init, candidate_reader(RefLoad::Scoped, table, extra));
        match row_candidate(RefLoad::Parallel, table, extra, row) {
            Some(candidate) => {
                text::lemma_filter_push(parallel, candidate, keep);
                text::lemma_filter_push(scoped, candidate, keep);
            },
            None => {},
        }
    }
}

/// Whether every candidate row has an identifier.
pub open spec fn rows_identified(batches: Seq<RefBatch<Seq<RefRow<Seq<char>>>>>) -> bool {
    forall|b: int, i: int|
        0 <= b < batches.len() && batches[b].table != RefTable::Airports && 0 <= i
            < batches[b].rows.len() ==> (#[trigger] batches[b].rows[i]).identifier.len() > 0
}

/// A parallel load and a scoped load of the same rows give the same airports, the same candidates
/// under every identifier that is not empty, and, where every candidate row has an identifier, the
/// same candidates altogether.
pub proof fn parallel_load_agrees_with_scoped_load(
    batches: Seq<RefBatch<Seq<RefRow<Seq<char>>>>>,
    identifier: Seq<char>,
)
    ensures
        text::flat_collect(batches, batch_airports(RefLoad::Parallel)) == text::flat_collect(
            batches,
            batch_airports(RefLoad::Scoped),
        ),
        identifier.len() > 0 || rows_identified(batches) ==> text::flat_collect(
            batches,
            batch_candidates(RefLoad::Parallel),
        ).filter(candidate_chooser(identifier)) == text::flat_collect(
            batches,
            batch_candidates(RefLoad::Scoped),
        ).filter(candidate_chooser(identifier)),
    decreases batches.len(),
{
    if batches.len() > 0 {
        let init = batches.drop_last();
        let batch = batches.last();
        let keep = candidate_chooser(identifier);
        assert(rows_identified(batches) ==> rows_identified(init)) by {
            assert forall|b: int, i: int|
                rows_identified(batches) && 0 <= b < init.len() && init[b].table
                    != RefTable::Airports && 0 <= i < init[b].rows.len() implies (
            #[trigger] init[b].rows[i]).identifier.len() > 0 by {
                assert(batches[b].rows[i] == init[b].rows[i]);
            }
        }
        parallel_load_agrees_with_scoped_load(init, identifier);
        let parallel = batch_candidates(RefLoad::Parallel);
        let scoped = batch_candidates(RefLoad::Scoped);
        let last = batches.len() - 1;
        assert(airport_reader(RefLoad::Parallel) =~= airport_reader(RefLoad::Scoped));
        if identifier.len() > 0 || rows_identified(batches) {
            if batch.table != RefTable::Airports {
                assert forall|i: int| 0 <= i < batch.rows.len() && identifier.len() == 0 implies (
                #[trigger] batch.rows[i]).identifier.len() > 0 by {
                    assert(batches[last].rows[i] == batch.rows[i]);
                }
                lemma_same_candidates(batch.rows, batch.table, batch.extra, identifier);
            }
            Seq::filter_distributes_over_add(
                text::flat_collect(init, parallel),
                parallel(last, batch),
                keep,
            );
            Seq::filter_distributes_over_add(
                text::flat_collect(init, scoped),
                scoped(last, batch),
                keep,
            );
        }
    }
}

/// The matchers of a parallel load and of a scoped load of the same rows answer every request
/// alike, unless a candidate is asked for by the empty identifier among rows that lack one.
pub proof fn parallel_matcher_answers_like_scoped_matcher(
    batches: Seq<RefBatch<Seq<RefRow<Seq<char>>>>>,
    parallel: RefTableMatcher,
    scoped: RefTableMatcher,
    identifier: Option<Seq<char>>,
    positioned: bool,
    is_airport: bool,
    airport_id: Option<Seq<char>>,
    near: Seq<bool>,
)
    requires
        parallel.holds(
            text::flat_collect(batches, batch_airports(RefLoad::Parallel)),
            text::flat_collect(batches, batch_candidates(RefLoad::Parallel)),
        ),
        scoped.holds(
            text::flat_collect(batches, batch_airports(RefLoad::Scoped)),
            text::flat_collect(batches, batch_candidates(RefLoad::Scoped)),
        ),
        is_airport || identifier != Some(Seq::<char>::empty()) || rows_identified(batches),
    ensures
        parallel.matched(identifier, positioned, is_airport, airport_id, near) == scoped.matched(
            identifier,
            positioned,
            is_airport,
            airport_id,
            near,
        ),
{
    match identifier {
        Some(name) => {
            parallel_load_agrees_with_scoped_load(batches, name);
            assert(name.len() == 0 ==> name =~= Seq::<char>::empty());
            assert(parallel.airport_at(name) == scoped.airport_at(name));
            if !is_airport {
                assert(parallel.candidates_at(name) == scoped.candidates_at(name));
            }
        },
        None => {},
    }
}

/// Every table has a name, a column of identifiers and two columns of positions, latitude first.
pub proof fn tables_are_asked_for_their_own_columns()
    ensures
        select_all(RefTable::Airports, ExtraColumn::Nothing) == "SELECT "@ + "airport_identifier"@
            + ", "@ + "airport_ref_latitude, airport_ref_longitude"@ + ""@ + " FROM "@
            + "tbl_airports"@,
        select_all(RefTable::EnrouteNdbs, ExtraColumn::Nothing) == "SELECT "@ + "ndb_identifier"@
            + ", "@ + "ndb_latitude, ndb_longitude"@ + ""@ + " FROM "@ + "tbl_enroute_ndbnavaids"@,
        select_all(RefTable::VhfNavaids, ExtraColumn::Nothing) == "SELECT "@ + "vor_identifier"@
            + ", "@ + "vor_latitude, vor_longitude"@ + ""@ + " FROM "@ + "tbl_vhfnavaids"@,
        select_all(RefTable::TerminalNdbs, ExtraColumn::Airport) == "SELECT "@ + "ndb_identifier"@
            + ", "@ + "ndb_latitude, ndb_longitude"@ + ", airport_identifier"@ + " FROM "@
            + "tbl_terminal_ndbnavaids"@,
        select_all(RefTable::EnrouteWaypoints, ExtraColumn::Nothing) == "SELECT "@
            + "waypoint_identifier"@ + ", "@ + "waypoint_latitude, waypoint_longitude"@ + ""@
            + " FROM "@ + "tbl_enroute_waypoints"@,
        select_all(RefTable::TerminalWaypoints, ExtraColumn::Region) == "SELECT "@
            + "waypoint_identifier"@ + ", "@ + "waypoint_latitude, waypoint_longitude"@
            + ", region_code"@ + " FROM "@ + "tbl_terminal_waypoints"@,
        select_all(RefTable::Runways, ExtraColumn::Airport) == "SELECT "@ + "runway_identifier"@
            + ", "@ + "runway_latitude, runway_longitude"@ + ", airport_identifier"@ + " FROM "@
            + "tbl_runways"@,
        select_all(RefTable::Localizers, ExtraColumn::Airport) == "SELECT "@ + "llz_identifier"@
            + ", "@ + "llz_latitude, llz_longitude"@ + ", airport_identifier"@ + " FROM "@
            + "tbl_localizers_glideslopes"@,
        select_all(RefTable::Gls, ExtraColumn::Airport) == "SELECT "@ + "gls_ref_path_identifier"@
            + ", "@ + "station_latitude, station_longitude"@ + ", airport_identifier"@ + " FROM "@
            + "tbl_gls"@,
{
}

/// A row with both coordinates stands at them, latitude and longitude each in its place; what the
/// extra column holds is the row's region or its airport.
pub proof fn rows_stand_at_their_own_coordinates(
    load: RefLoad,
    table: RefTable,
    extra: ExtraColumn,
    row: RefRow<Seq<char>>,
)
    ensures
        row.latitude is None || row.longitude is None ==> row_airport(load, row) is None
            && row_candidate(load, table, extra, row) is None,
        row.latitude is Some && row.longitude is Some && row.identifier.len() > 0 ==> row_airport(
            load,
            row,
        ) is Some && row_candidate(load, table, extra, row) is Some,
        row_airport(load, row) matches Some(found) ==> {
            &&& found.0 == row.identifier
            &&& Some(found.1.latitude) == row.latitude
            &&& Some(found.1.longitude) == row.longitude
        },
        row_candidate(load, table, extra, row) matches Some(found) ==> {
            &&& found.identifier == row.identifier
            &&& found.table == table
            &&& Some(found.point.latitude) == row.latitude
            &&& Some(found.point.longitude) == row.longitude
            &&& extra == ExtraColumn::Region ==> found.region == row.extra && found.airport is None
            &&& extra == ExtraColumn::Airport ==> found.airport == row.extra && found.region is None
            &&& extra == ExtraColumn::Nothing ==> found.airport is None && found.region is None
        },
        row.identifier.len() == 0 ==> row_airport(RefLoad::Full, row) is None && row_candidate(
            RefLoad::Full,
            table,
            extra,
            row,
        ) is None && row_candidate(RefLoad::Scoped, table, extra, row) is None,
        row.latitude is Some && row.longitude is Some ==> row_candidate(
            RefLoad::Parallel,
            table,
            extra,
            row,
        ) is Some && row_airport(RefLoad::Scoped, row) is Some && row_airport(
            RefLoad::Parallel,
            row,
        ) is Some,
{
}

/// Of the airports with an identifier, the first counts.
pub proof fn the_first_airport_with_an_identifier_counts(
    airports: Seq<(Seq<char>, Point)>,
    identifier: Seq<char>,
    k: int,
)
    requires
        0 <= k < airports.len(),
        airports[k].0 == identifier,
        forall|j: int| 0 <= j < k ==> (#[trigger] airports[j]).0 != identifier,
    ensures
        first_airport(airports, identifier) == Some(airports[k].1),
    decreases airports.len(),
{
    let init = airports.drop_last();
    if k < airports.len() - 1 {
        assert(init[k] == airports[k]);
        assert forall|j: int| 0 <= j < k implies (#[trigger] init[j]).0 != identifier by {
            assert(init[j] == airports[j]);
        }
        the_first_airport_with_an_identifier_counts(init, identifier, k);
    } else {
        assert forall|j: int| 0 <= j < init.len() implies (#[trigger] init[j]).0 != identifier by {
            assert(init[j] == airports[j]);
        }
        an_airport_that_was_not_read_is_not_found(init, identifier);
    }
}

/// An airport that was not read is not found.
pub proof fn an_airport_that_was_not_read_is_not_found(
    airports: Seq<(Seq<char>, Point)>,
    identifier: Seq<char>,
)
    requires
        forall|j: int| 0 <= j < airports.len() ==> (#[trigger] airports[j]).0 != identifier,
    ensures
        first_airport(airports, identifier) is None,
    decreases airports.len(),
{
    if airports.len() > 0 {
        let init = airports.drop_last();
        assert forall|j: int| 0 <= j < init.len() implies (#[trigger] init[j]).0 != identifier by {
            assert(init[j] == airports[j]);
        }
        assert(airports[airports.len() - 1].0 != identifier);
        an_airport_that_was_not_read_is_not_found(init, identifier);
    }
}

/// A candidate of an airport fits that airport alone; a terminal waypoint fits the airport that is
/// its region; any other fits every airport, and where no airport is asked for all fit.
pub proof fn candidates_fit_their_own_airport(
    candidate: RefCandidate<Seq<char>>,
    airport: Seq<char>,
)
    ensures
        fits_airport(candidate, None),
        candidate.airport is Some && candidate.airport != Some(airport) ==> !fits_airport(
            candidate,
            Some(airport),
        ),
        candidate.table == RefTable::TerminalWaypoints && candidate.region != Some(airport)
            ==> !fits_airport(candidate, Some(airport)),
        candidate.table != RefTable::TerminalWaypoints && (candidate.airport is None
            || candidate.airport == Some(airport)) ==> fits_airport(candidate, Some(airport)),
        candidate.table == RefTable::TerminalWaypoints && candidate.region == Some(airport)
            && candidate.airport is None ==> fits_airport(candidate, Some(airport)),
{
}

/// Of the candidates that are near and fit, the first answers, with its table and its position.
pub proof fn the_first_near_and_fitting_candidate_answers(
    candidates: Seq<RefCandidate<Seq<char>>>,
    near: Seq<bool>,
    airport_id: Option<Seq<char>>,
    k: int,
)
    requires
        0 <= k < candidates.len(),
        near.len() == candidates.len(),
        near[k] && fits_airport(candidates[k], airport_id),
        forall|j: int|
            0 <= j < k ==> !(near[j] && fits_airport(#[trigger] candidates[j], airport_id)),
    ensures
        ({
            let answer = first_match(candidates, near, airport_id);
            &&& answer.ref_table == Some(candidates[k].table)
            &&& answer.latitude == Some(candidates[k].point.latitude)
            &&& answer.longitude == Some(candidates[k].point.longitude)
        }),
    decreases candidates.len(),
{
    if k > 0 {
        let rest = candidates.skip(1);
        assert(rest[k - 1] == candidates[k]);
        assert(near.skip(1)[k - 1] == near[k]);
        assert(!(near[0] && fits_airport(candidates[0], airport_id)));
        assert forall|j: int| 0 <= j < k - 1 implies !(near.skip(1)[j] && fits_airport(
            #[trigger] rest[j],
            airport_id,
        )) by {
            assert(rest[j] == candidates[j + 1]);
        }
        the_first_near_and_fitting_candidate_answers(rest, near.skip(1), airport_id, k - 1);
    }
}

/// Where no candidate is near and fits, nothing is answered.
pub proof fn without_a_near_and_fitting_candidate_nothing_is_answered(
    candidates: Seq<RefCandidate<Seq<char>>>,
    near: Seq<bool>,
    airport_id: Option<Seq<char>>,
)
    requires
        near.len() == candidates.len(),
        forall|j: int|
            0 <= j < candidates.len() ==> !(near[j] && fits_airport(
                #[trigger] candidates[j],
                airport_id,
            )),
    ensures
        ({
            let answer = first_match(candidates, near, airport_id);
            answer.ref_table is None && answer.latitude is None && answer.longitude is None
        }),
    decreases candidates.len(),
{
    if candidates.len() > 0 {
        let rest = candidates.skip(1);
        assert(!(near[0] && fits_airport(candidates[0], airport_id)));
        assert forall|j: int| 0 <= j < rest.len() implies !(near.skip(1)[j] && fits_airport(
            #[trigger] rest[j],
            airport_id,
        )) by {
            assert(rest[j] == candidates[j + 1]);
        }
        without_a_near_and_fitting_candidate_nothing_is_answered(rest, near.skip(1), airport_id);
    }
}

/// An airport is answered with the position of the first airport of its name, whatever else is near;
/// a fix without a position is not answered.
pub proof fn airports_are_answered_by_their_name(
    matcher: RefTableMatcher,
    airports: Seq<(Seq<char>, Point)>,
    candidates: Seq<RefCandidate<Seq<char>>>,
    identifier: Seq<char>,
    positioned: bool,
    airport_id: Option<Seq<char>>,
    near: Seq<bool>,
    k: int,
)
    requires
        matcher.holds(airports, candidates),
        0 <= k < airports.len(),
        airports[k].0 == identifier,
        forall|j: int| 0 <= j < k ==> (#[trigger] airports[j]).0 != identifier,
    ensures
        ({
            let answer = matcher.matched(Some(identifier), positioned, true, airport_id, near);
            &&& answer.ref_table == Some(RefTable::Airports)
            &&& answer.latitude == Some(airports[k].1.latitude)
            &&& answer.longitude == Some(airports[k].1.longitude)
        }),
        matcher.matched(Some(identifier), false, false, airport_id, near).ref_table is None,
        matcher.matched(None, positioned, true, airport_id, near).ref_table is None,
{
    the_first_airport_with_an_identifier_counts(airports, identifier, k);
    assert(matcher.airport_at(identifier) == first_airport(airports, identifier));
}

/// A fix is looked for among the candidates of its own name, in the order in which they were read.
pub proof fn fixes_are_looked_for_by_their_name(
    matcher: RefTableMatcher,
    airports: Seq<(Seq<char>, Point)>,
    candidates: Seq<RefCandidate<Seq<char>>>,
    identifier: Seq<char>,
    airport_id: Option<Seq<char>>,
    near: Seq<bool>,
)
    requires
        matcher.holds(airports, candidates),
    ensures
        matcher.matched(Some(identifier), true, false, airport_id, near) == first_match(
            candidates.filter(|c: RefCandidate<Seq<char>>| c.identifier == identifier),
            near,
            airport_id,
        ),
{
    assert(matcher.candidates_at(identifier) == candidates.filter(candidate_chooser(identifier)));
    assert(candidate_chooser(identifier) =~= (|c: RefCandidate<Seq<char>>| c.identifier
        == identifier));
}

/// Tables are asked in the order in which their candidates are to be preferred.
pub proof fn tables_are_asked_in_the_order_of_preference()
    ensures
        table_order(true).len() == 9,
        table_order(true)[0] == (RefTable::Airports, ExtraColumn::Nothing),
        table_order(true)[1] == (RefTable::EnrouteNdbs, ExtraColumn::Nothing),
        table_order(true)[2] == (RefTable::VhfNavaids, ExtraColumn::Nothing),
        table_order(true)[3] == (RefTable::TerminalNdbs, ExtraColumn::Airport),
        table_order(true)[4] == (RefTable::EnrouteWaypoints, ExtraColumn::Nothing),
        table_order(true)[5] == (RefTable::TerminalWaypoints, ExtraColumn::Region),
        table_order(true)[6] == (RefTable::Runways, ExtraColumn::Airport),
        table_order(true)[7] == (RefTable::Localizers, ExtraColumn::Airport),
        table_order(true)[8] == (RefTable::Gls, ExtraColumn::Airport),
        table_order(false).len() == 10,
        table_order(false)[0] == (RefTable::Airports, ExtraColumn::Nothing),
        table_order(false)[1] == (RefTable::EnrouteNdbs, ExtraColumn::Nothing),
        table_order(false)[2] == (RefTable::VhfNavaids, ExtraColumn::Nothing),
        table_order(false)[3] == (RefTable::TerminalNdbs, ExtraColumn::Nothing),
        table_order(false)[4] == (RefTable::EnrouteWaypoints, ExtraColumn::Nothing),
        table_order(false)[5] == (RefTable::TerminalWaypoints, ExtraColumn::Region),
        table_order(false)[6] == (RefTable::TerminalNdbs, ExtraColumn::Airport),
        table_order(false)[7] == (RefTable::Runways, ExtraColumn::Airport),
        table_order(false)[8] == (RefTable::Localizers, ExtraColumn::Airport),
        table_order(false)[9] == (RefTable::Gls, ExtraColumn::Airport),
{
}

/// Without wanted identifiers every table is asked once for all of its rows.
pub proof fn every_table_is_asked_for_all_its_rows(i: int)
    requires
        0 <= i < 10,
    ensures
        ref_queries(None).len() == 10,
        ref_queries(None)[i].table == table_order(false)[i].0,
        ref_queries(None)[i].extra == table_order(false)[i].1,
        ref_queries(None)[i].sql == select_all(table_order(false)[i].0, table_order(false)[i].1),
        ref_queries(None)[i].parameters.len() == 0,
{
    text::lemma_flat_singles(table_order(false), full_query(), i);
}

/// With wanted identifiers, as many as one query takes, every table is asked once for their rows.
pub proof fn every_table_is_asked_for_the_wanted_rows(identifiers: Seq<Seq<char>>, i: int)
    requires
        0 < identifiers.len() <= 999,
        0 <= i < 9,
    ensures
        ref_queries(Some(identifiers)).len() == 9,
        ref_queries(Some(identifiers))[i].table == table_order(true)[i].0,
        ref_queries(Some(identifiers))[i].extra == table_order(true)[i].1,
        ref_queries(Some(identifiers))[i].parameters == identifiers,
        ref_queries(Some(identifiers))[i].sql == select_all(
            table_order(true)[i].0,
            table_order(true)[i].1,
        ) + " WHERE "@ + identifier_column(table_order(true)[i].0) + " IN ("@ + db::placeholders(
            identifiers.len(),
        ) + ")"@,
{
    let f = scoped_queries(identifiers);
    let runs = db::chunks(identifiers, db::SQLITE_MAX_VARIABLE_NUMBER as int);
    assert(runs =~= seq![identifiers]);
    text::lemma_flat_singles(table_order(true), f, i);
}

/// Airports are read from the table of airports alone, and candidates from all the others.
pub proof fn airports_are_read_from_their_own_table(
    load: RefLoad,
    batch: RefBatch<Seq<RefRow<Seq<char>>>>,
    airport: (Seq<char>, Point),
    candidate: RefCandidate<Seq<char>>,
)
    ensures
        batch_airports(load)(0, batch).contains(airport) <==> batch.table == RefTable::Airports
            && exists|i: int|
            0 <= i < batch.rows.len() && row_airport(load, #[trigger] batch.rows[i]) == Some(airport),
        batch_candidates(load)(0, batch).contains(candidate) <==> batch.table != RefTable::Airports
            && exists|i: int|
            0 <= i < batch.rows.len() && row_candidate(
                load,
                batch.table,
                batch.extra,
                #[trigger] batch.rows[i],
            ) == Some(candidate),
{
    let f = airport_reader(load);
    let g = candidate_reader(load, batch.table, batch.extra);
    text::lemma_collect_contains(batch.rows, f, airport);
    text::lemma_collect_contains(batch.rows, g, candidate);
    assert forall|i: int| 0 <= i < batch.rows.len() implies f(i, #[trigger] batch.rows[i])
        == row_airport(load, batch.rows[i]) && g(i, batch.rows[i]) == row_candidate(
        load,
        batch.table,
        batch.extra,
        batch.rows[i],
    ) by {}
}

/// Every field of a `RefTableQuery` is seen under its own name.
pub proof fn every_field_of_ref_table_query_is_seen(it: RefTableQuery)
    ensures
        it@.table == it.table,
        it@.extra == it.extra,
        it@.sql == it.sql@,
        it@.parameters == text::views(it.parameters@),
{
}

/// Every field of a `RefRow` is seen under its own name.
pub proof fn every_field_of_ref_row_is_seen(it: RefRow)
    ensures
        it@.identifier == it.identifier@,
        it@.latitude == it.latitude,
        it@.longitude == it.longitude,
        it@.extra == text::opt(it.extra),
{
}

/// Every field of a `RefBatch` is seen under its own name.
pub proof fn every_field_of_ref_batch_is_seen(it: RefBatch)
    ensures
        it@.table == it.table,
        it@.extra == it.extra,
        it@.rows == text::views(it.rows@),
{
}

/// Every field of a `RefCandidate` is seen under its own name.
pub proof fn every_field_of_ref_candidate_is_seen(it: RefCandidate)
    ensures
        it@.identifier == it.identifier@,
        it@.table == it.table,
        it@.point == it.point,
        it@.region == text::opt(it.region),
        it@.airport == text::opt(it.airport),
{
}

} // verus!
